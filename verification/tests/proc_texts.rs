use neltex::class::ProcClass;
use neltex::clock;
use neltex::procfs;

const STAT: &str = "42 (a) b) S 1 42 42 0 -1 4194560 1 2 3 4 150 25 0 0 20 0 1 0 100 0 0";

#[test]
fn process_names_are_digits() {
    assert!(procfs::is_pid_name("1"));
    assert!(procfs::is_pid_name("12345"));
    assert!(procfs::is_pid_name(""));
    assert!(!procfs::is_pid_name("self"));
    assert!(!procfs::is_pid_name("12a"));
    assert!(!procfs::is_pid_name("\u{0661}"));
}

#[test]
fn comm_is_trimmed() {
    assert_eq!(procfs::comm_name("Web Content\n"), "Web Content");
    assert_eq!(procfs::comm_name("\n"), "");
}

#[test]
fn uid_is_the_second_word_of_its_line() {
    let status = "Name:\tbash\nUmask:\t0022\nUid:\t1000\t1001\t1002\t1003\nGid:\t5\t5\t5\t5\n";
    assert_eq!(procfs::read_uid(Some(status)), Some(1000));
    assert_eq!(procfs::read_uid(Some("Uid:\t0\t0\t0\t0\n")), Some(0));
    assert_eq!(procfs::read_uid(Some("Uid:\n")), None);
    assert_eq!(procfs::read_uid(Some("Uid: x\n")), None);
    assert_eq!(procfs::read_uid(Some("Uid: x\nUid: 5\n")), None);
    assert_eq!(procfs::read_uid(Some(" Uid: 5\n")), None);
    assert_eq!(procfs::read_uid(Some("Uid: 4294967296\n")), None);
    assert_eq!(procfs::read_uid(Some("")), None);
    assert_eq!(procfs::read_uid(None), None);
}

#[test]
fn ticks_are_user_and_kernel_together() {
    assert!(procfs::stat_is_sound(STAT));
    assert_eq!(procfs::read_cpu_ticks(Some(STAT)), 175);
    assert_eq!(procfs::read_cpu_ticks(None), 0);
}

#[test]
fn ticks_that_are_missing_are_zero() {
    assert!(procfs::stat_is_sound("1 (x) S 1 2"));
    assert_eq!(procfs::read_cpu_ticks(Some("1 (x) S 1 2")), 0);
    assert!(procfs::stat_is_sound("ab 0 1 2 3 4 5 6 7 8 9 10 11 12"));
    assert_eq!(procfs::read_cpu_ticks(Some("ab 0 1 2 3 4 5 6 7 8 9 10 11 12")), 11 + 12);
    assert_eq!(procfs::read_cpu_ticks(Some("\u{e9} 0 1 2 3 4 5 6 7 8 9 10 11 12")), 23);
    assert_eq!(procfs::read_cpu_ticks(Some("1 (x) S 1 1 1 1 1 1 1 1 1 1 u 9")), 9);
}

#[test]
fn stat_texts_that_end_too_early_are_unsound() {
    assert!(!procfs::stat_is_sound(""));
    assert!(!procfs::stat_is_sound("x"));
    assert!(!procfs::stat_is_sound("1 (x)"));
    assert!(!procfs::stat_is_sound("1 (x)\u{e9}"));
    assert!(!procfs::stat_is_sound("\u{4e2d}ab"));
    assert!(procfs::stat_is_sound("1 (x) "));
    let max = u64::MAX.to_string();
    let big = format!("1 (x) S 1 1 1 1 1 1 1 1 1 1 {} 1", max);
    assert!(!procfs::stat_is_sound(&big));
}

#[test]
fn syscr_is_the_number_of_its_line() {
    let io = "rchar: 1\nwchar: 2\nsyscr: 345\nsyscw: 6\n";
    assert_eq!(procfs::read_syscr(Some(io)), 345);
    assert_eq!(procfs::read_syscr(Some("syscr:  7 \n")), 7);
    assert_eq!(procfs::read_syscr(Some("syscr:7\n")), 0);
    assert_eq!(procfs::read_syscr(Some("syscr: x\n")), 0);
    assert_eq!(procfs::read_syscr(None), 0);
}

#[test]
fn classes_follow_the_name_and_the_owner() {
    assert_eq!(ProcClass::from_comm("bash", 0), ProcClass::Kernel);
    assert_eq!(ProcClass::from_comm("bash", 1), ProcClass::System);
    assert_eq!(ProcClass::from_comm("bash", 999), ProcClass::System);
    assert_eq!(ProcClass::from_comm("bash", 1000), ProcClass::User);
    for name in ["kworker/0:1", "irq", "irq/16-i801", "rcu_sched", "migration/3", "ksoftirqd/0"] {
        assert_eq!(ProcClass::from_comm(name, 1000), ProcClass::Kernel);
    }
    assert_eq!(ProcClass::from_comm("xkworker", 1000), ProcClass::User);
    assert_eq!(ProcClass::from_comm("", 1000), ProcClass::User);
}

#[test]
fn weights_are_those_of_the_classes() {
    assert_eq!(f64::from_bits(ProcClass::from_uid(0).x_priv().bits), -0.30);
    assert_eq!(f64::from_bits(ProcClass::from_uid(33).x_priv().bits), -0.10);
    assert_eq!(f64::from_bits(ProcClass::from_uid(1000).x_priv().bits), 0.20);
}

#[test]
fn the_clock_shows_a_time_of_this_century() {
    let a = clock::unix_now();
    let b = std::time::SystemTime::now()
        .duration_since(std::time::UNIX_EPOCH)
        .map(|d| d.as_secs())
        .unwrap_or(0);
    assert!(a <= b && b - a < 10);
    assert_eq!(clock::seconds_or_zero(Some(17)), 17);
    assert_eq!(clock::seconds_or_zero(None), 0);
}

#[test]
fn a_point_in_time_counts_from_1970() {
    let epoch = std::time::UNIX_EPOCH;
    assert_eq!(clock::seconds_at(epoch), 0);
    assert_eq!(clock::seconds_at(epoch + std::time::Duration::from_millis(17_999)), 17);
    assert_eq!(clock::seconds_at(epoch + std::time::Duration::from_secs(1_000_000_000)), 1_000_000_000);
    assert_eq!(clock::seconds_at(epoch - std::time::Duration::from_secs(5)), 0);
}
