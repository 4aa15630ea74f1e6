use fat32_parser::shell::{change_dir, parse_command, CdOutcome, Command};
use fat32_parser::{Fat32, FatError};

/// A volume of five sectors: the root in cluster 2 with the directory `DIR`
/// in cluster 3 and the file `FILE.TXT` in cluster 4.
fn build_image() -> Vec<u8> {
    let mut disk = vec![0u8; 5 * 512];
    disk[11..13].copy_from_slice(&512u16.to_le_bytes());
    disk[13] = 1;
    disk[14..16].copy_from_slice(&1u16.to_le_bytes());
    disk[16] = 1;
    disk[36..40].copy_from_slice(&1u32.to_le_bytes());
    disk[44..48].copy_from_slice(&2u32.to_le_bytes());
    for cluster in 2..5 {
        let at = 512 + cluster * 4;
        disk[at..at + 4].copy_from_slice(&0x0FFF_FFFFu32.to_le_bytes());
    }
    let root = 1024;
    disk[root..root + 11].copy_from_slice(b"DIR        ");
    disk[root + 11] = 0x10;
    disk[root + 26] = 3;
    disk[root + 32..root + 43].copy_from_slice(b"FILE    TXT");
    disk[root + 32 + 11] = 0x20;
    disk[root + 32 + 26] = 4;
    disk[root + 32 + 28] = 2;
    disk[2048..2050].copy_from_slice(b"hi");
    disk
}

#[test]
fn parse_command_empty_lines() {
    assert!(matches!(parse_command("/", ""), Command::Empty));
    assert!(matches!(parse_command("/", "   "), Command::Empty));
    assert!(matches!(parse_command("/", "\t\r\n"), Command::Empty));
}

#[test]
fn parse_command_words_without_a_path() {
    assert!(matches!(parse_command("/", "exit"), Command::Exit));
    assert!(matches!(parse_command("/", "quit\n"), Command::Exit));
    assert!(matches!(parse_command("/", "  help  "), Command::Help));
    assert!(matches!(parse_command("/A", "pwd"), Command::Pwd));
    assert!(matches!(parse_command("/A", "pwd and more"), Command::Pwd));
    assert!(matches!(parse_command("/A", "cat"), Command::CatUsage));
}

#[test]
fn parse_command_ls() {
    match parse_command("/A", "ls\n") {
        Command::Ls(p) => assert_eq!(p, "/A"),
        other => panic!("{other:?}"),
    }
    match parse_command("/A", "ls B\n") {
        Command::Ls(p) => assert_eq!(p, "/A/B"),
        other => panic!("{other:?}"),
    }
    match parse_command("/A", "ls  /X/../Y  ignored") {
        Command::Ls(p) => assert_eq!(p, "/Y"),
        other => panic!("{other:?}"),
    }
    // the current directory is handed on as it is
    match parse_command("A//B", "ls") {
        Command::Ls(p) => assert_eq!(p, "A//B"),
        other => panic!("{other:?}"),
    }
}

#[test]
fn parse_command_cat() {
    match parse_command("/A", "cat F.TXT") {
        Command::Cat(p) => assert_eq!(p, "/A/F.TXT"),
        other => panic!("{other:?}"),
    }
    match parse_command("/A", "cat ../F.TXT") {
        Command::Cat(p) => assert_eq!(p, "/F.TXT"),
        other => panic!("{other:?}"),
    }
}

#[test]
fn parse_command_cd() {
    match parse_command("/A/B", "cd") {
        Command::Cd(p) => assert_eq!(p, "/"),
        other => panic!("{other:?}"),
    }
    match parse_command("/A/B", "cd ..") {
        Command::Cd(p) => assert_eq!(p, "/A"),
        other => panic!("{other:?}"),
    }
    match parse_command("/A/B", "cd /C") {
        Command::Cd(p) => assert_eq!(p, "/C"),
        other => panic!("{other:?}"),
    }
}

#[test]
fn parse_command_unknown_words() {
    match parse_command("/", "dir /x") {
        Command::Unknown(w) => assert_eq!(w, "dir"),
        other => panic!("{other:?}"),
    }
    match parse_command("/", "LS") {
        Command::Unknown(w) => assert_eq!(w, "LS"),
        other => panic!("{other:?}"),
    }
    match parse_command("/", "exit!") {
        Command::Unknown(w) => assert_eq!(w, "exit!"),
        other => panic!("{other:?}"),
    }
}

#[test]
fn change_dir_enters_a_directory() {
    let disk = build_image();
    let fs = Fat32::new(&disk).expect("fat32 new failed");
    let mut current = String::from("/");
    assert_eq!(change_dir(&fs, &mut current, "/DIR".to_string()), CdOutcome::Entered);
    assert_eq!(current, "/DIR");
    assert_eq!(change_dir(&fs, &mut current, "/dir".to_string()), CdOutcome::Entered);
    assert_eq!(current, "/dir");
}

#[test]
fn change_dir_stays_where_the_target_is_no_directory() {
    let disk = build_image();
    let fs = Fat32::new(&disk).expect("fat32 new failed");
    let mut current = String::from("/DIR");
    assert_eq!(change_dir(&fs, &mut current, "/FILE.TXT".to_string()), CdOutcome::NotADirectory);
    assert_eq!(current, "/DIR");
    assert_eq!(change_dir(&fs, &mut current, "/NOPE".to_string()), CdOutcome::NotFound);
    assert_eq!(current, "/DIR");
    // the root has no entry of its own
    assert_eq!(change_dir(&fs, &mut current, "/".to_string()), CdOutcome::NotFound);
    assert_eq!(current, "/DIR");
    assert_eq!(
        change_dir(&fs, &mut current, "DIR".to_string()),
        CdOutcome::Failed(FatError::Other)
    );
    assert_eq!(current, "/DIR");
}

#[test]
fn change_dir_reports_a_volume_that_cannot_be_read() {
    let mut disk = build_image();
    disk[44] = 1;
    let fs = Fat32::new(&disk).expect("fat32 new failed");
    let mut current = String::from("/");
    assert_eq!(
        change_dir(&fs, &mut current, "/DIR".to_string()),
        CdOutcome::Failed(FatError::InvalidCluster)
    );
    assert_eq!(current, "/");
}
