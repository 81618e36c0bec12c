use jsonl_db::db::{Closed, RsonlDB};
use jsonl_db::db_options::DBOptions;
use jsonl_db::files::{file_path, recovery_steps, swap_steps, FileProbe, FileRole, FileStep};
use jsonl_db::storage::parse_entries;
use jsonl_db::util::file_needs_lf;

const BEFORE: &str = "{\"k\":\"a\",\"v\":1}\n{\"k\":\"b\",\"v\":{\"t\":\"x\"}}\n{\"k\":\"a\"}\n";
const AFTER: &str = "{\"k\":\"b\",\"v\":{\"t\":\"x\"}}\n";

#[derive(Clone, Debug, PartialEq)]
struct Disk {
    main: Option<String>,
    backup: Option<String>,
    dump: Option<String>,
}

impl Disk {
    fn slot(&mut self, role: FileRole) -> &mut Option<String> {
        match role {
            FileRole::Main => &mut self.main,
            FileRole::Backup => &mut self.backup,
            FileRole::Dump => &mut self.dump,
        }
    }

    fn step(&mut self, step: FileStep) {
        match step {
            FileStep::SyncDir => {}
            FileStep::Rename(from, to) => {
                let content = self.slot(from).take().expect("rename of a missing file");
                *self.slot(to) = Some(content);
            }
            FileStep::Remove(role) => {
                self.slot(role).take().expect("removal of a missing file");
            }
            FileStep::Discard(role) => {
                self.slot(role).take();
            }
        }
    }

    fn recover(&mut self) {
        let steps = recovery_steps(&probe(&self.main), &probe(&self.backup), &probe(&self.dump));
        for step in steps {
            self.step(step);
        }
    }

    fn keys_after_open(&self) -> Vec<String> {
        let content = self.main.clone().unwrap_or_default();
        let lines: Vec<String> = content.lines().map(|l| l.to_string()).collect();
        let entries = parse_entries(&lines, false).unwrap();
        entries.keys().cloned().collect()
    }
}

fn probe(file: &Option<String>) -> FileProbe {
    match file {
        Some(content) => FileProbe { exists: true, is_file: true, len: content.len() as u64 },
        None => FileProbe { exists: false, is_file: false, len: 0 },
    }
}

#[test]
fn crash_between_the_renames_recovers_the_backup() {
    let mut disk = Disk { main: None, backup: Some(BEFORE.to_string()), dump: Some(AFTER.to_string()) };
    let steps = recovery_steps(&probe(&disk.main), &probe(&disk.backup), &probe(&disk.dump));
    assert_eq!(
        steps,
        vec![FileStep::Rename(FileRole::Backup, FileRole::Main), FileStep::Discard(FileRole::Dump)]
    );
    disk.recover();
    assert_eq!(disk, Disk { main: Some(BEFORE.to_string()), backup: None, dump: None });
    assert_eq!(disk.keys_after_open(), vec!["b".to_string()]);

    disk.dump = Some(AFTER.to_string());
    for step in swap_steps() {
        disk.step(step);
    }
    assert_eq!(disk, Disk { main: Some(AFTER.to_string()), backup: None, dump: None });
    assert_eq!(disk.keys_after_open(), vec!["b".to_string()]);
}

#[test]
fn crash_at_every_point_of_the_swap_recovers_the_map() {
    let steps = swap_steps();
    assert_eq!(steps.len(), 5);
    for done in 0..=steps.len() {
        let mut disk = Disk { main: Some(BEFORE.to_string()), backup: None, dump: Some(AFTER.to_string()) };
        for step in &steps[..done] {
            disk.step(*step);
        }
        disk.recover();
        assert_eq!(disk.keys_after_open(), vec!["b".to_string()], "after {} steps", done);
        assert_eq!(disk.backup, None);
        assert_eq!(disk.dump, None);
        assert!(disk.main == Some(BEFORE.to_string()) || disk.main == Some(AFTER.to_string()));
    }
}

#[test]
fn crash_while_the_dump_is_written_keeps_the_log() {
    for written in 0..=AFTER.len() {
        let mut disk =
            Disk { main: Some(BEFORE.to_string()), backup: None, dump: Some(AFTER[..written].to_string()) };
        disk.recover();
        assert_eq!(disk, Disk { main: Some(BEFORE.to_string()), backup: None, dump: None });
    }
}

#[test]
fn recovery_prefers_main_then_backup_then_dump() {
    let good = FileProbe { exists: true, is_file: true, len: 1 };
    let empty = FileProbe { exists: true, is_file: true, len: 0 };
    let dir = FileProbe { exists: true, is_file: false, len: 4096 };
    let gone = FileProbe { exists: false, is_file: false, len: 0 };
    assert_eq!(
        recovery_steps(&good, &good, &good),
        vec![FileStep::Discard(FileRole::Backup), FileStep::Discard(FileRole::Dump)]
    );
    assert_eq!(
        recovery_steps(&empty, &good, &good),
        vec![FileStep::Rename(FileRole::Backup, FileRole::Main), FileStep::Discard(FileRole::Dump)]
    );
    assert_eq!(
        recovery_steps(&gone, &dir, &good),
        vec![FileStep::Rename(FileRole::Dump, FileRole::Main), FileStep::Discard(FileRole::Backup)]
    );
    assert_eq!(recovery_steps(&empty, &gone, &empty), vec![]);
    assert_eq!(recovery_steps(&gone, &gone, &gone), vec![]);
    assert!(good.is_usable());
    assert!(!empty.is_usable());
    assert!(!dir.is_usable());
    assert!(!gone.is_usable());

    let db = RsonlDB::<Closed>::new("db.jsonl".to_string(), DBOptions::default());
    assert_eq!(db.try_recover_db_files(&gone, &good, &gone), recovery_steps(&gone, &good, &gone));
}

#[test]
fn swap_goes_through_backup() {
    assert_eq!(
        swap_steps(),
        vec![
            FileStep::SyncDir,
            FileStep::Rename(FileRole::Main, FileRole::Backup),
            FileStep::Rename(FileRole::Dump, FileRole::Main),
            FileStep::SyncDir,
            FileStep::Remove(FileRole::Backup),
        ]
    );
}

#[test]
fn file_paths_have_their_suffixes() {
    assert_eq!(file_path("dir/db.jsonl", FileRole::Main), "dir/db.jsonl");
    assert_eq!(file_path("dir/db.jsonl", FileRole::Backup), "dir/db.jsonl.bak");
    assert_eq!(file_path("dir/db.jsonl", FileRole::Dump), "dir/db.jsonl.dump");
}

#[test]
fn line_feed_is_needed_after_a_dangling_line() {
    assert!(!file_needs_lf(0, None));
    assert!(!file_needs_lf(0, Some(b'x')));
    assert!(!file_needs_lf(12, Some(10)));
    assert!(file_needs_lf(12, Some(b'}')));
    assert!(file_needs_lf(12, None));
}
