use neltex::learned;
use neltex::learned::CpuRow;
use neltex::scalar::Scalar;
use neltex::score;
use neltex::tgd_sched::model;
use neltex::tgd_sched::model::Gauss;
use neltex::tgd_sched::scan;
use neltex::tgd_sched::scan::ProcEntry;
use neltex::tgd_sched::scan::ProcFiles;
use neltex::tgd_sched::sched;
use neltex::tgd_sched::sched::Learned;
use neltex::tgd_sched::sched::Metric;
use neltex::tgd_sched::sched::ProcState;
use neltex::tgd_sched::sched::Record;
use neltex::tgd_sched::sched::Scheduler;

const SECOND: u64 = 1_000_000_000;

fn num(x: f64) -> Scalar {
    Scalar { bits: x.to_bits() }
}

fn entry(pid: i32, comm: &str, ticks: u64, syscr: u64) -> ProcEntry {
    ProcEntry {
        pid,
        comm: comm.to_string(),
        uid: 1000,
        cpu_ticks: ticks,
        syscr,
        gpu_ema: num(0.0),
    }
}

fn record(comm: &str, cpu: Option<f64>) -> Record {
    Record { comm: comm.to_string(), cpu: cpu.map(num) }
}

fn nothing() -> Learned {
    sched::load_learned(&Vec::new()).0
}

fn metric(pid: i32, cpu: f64, gpu: f64, syscr: f64) -> Metric {
    Metric { pid, uid: 1000, cpu_rate: num(cpu), gpu_ema: num(gpu), syscr_rate: num(syscr) }
}

fn sorted(mut v: Vec<i32>) -> Vec<i32> {
    v.sort();
    v
}

fn sched_with(rows: &[(i32, &str, f64)]) -> Scheduler {
    let mut s = Scheduler::new(1);
    let entries: Vec<ProcEntry> = rows.iter().map(|r| entry(r.0, r.1, 0, 0)).collect();
    s.enroll(&entries, &nothing(), SECOND);
    for (e, r) in entries.iter().zip(rows.iter()) {
        s.update(e, num(r.2), SECOND);
    }
    s
}

/// A density that has fallen by `k` steps, half way to its neighbours.
fn fallen(k: i32) -> Scalar {
    num(1.0 - k as f64 / 24.0)
}

/// The nice value by the formula, on the machine.
fn by_formula(norm: f64) -> i32 {
    (-5 + (24.0 * (1.0 - norm)).round() as i32).clamp(-5, 19)
}

#[test]
fn nice_values_lie_in_their_range() {
    assert_eq!(model::norm_to_nice(num(1.0)), -5);
    assert_eq!(model::norm_to_nice(num(0.0)), 19);
    assert_eq!(model::norm_to_nice(num(-0.0)), 19);
    assert_eq!(model::norm_to_nice(num(0.5)), 7);
    assert_eq!(model::norm_to_nice(num(f64::NAN)), -5);
    assert_eq!(model::norm_to_nice(num(-1.0e6)), 19);
    assert_eq!(model::norm_to_nice(num(f64::NEG_INFINITY)), 19);
    assert_eq!(model::norm_to_nice(num(1.0e6)), -5);
    for k in 0..=24 {
        assert_eq!(model::norm_to_nice(fallen(k)), -5 + k);
    }
}

#[test]
fn nice_values_agree_with_the_formula() {
    // Round every step, to the last bit.
    for k in 1..=24 {
        let middle = (1.0 - (k as f64 - 0.5) / 24.0).to_bits();
        for bits in middle - 200..=middle + 200 {
            let norm = f64::from_bits(bits);
            assert_eq!(model::norm_to_nice(num(norm)), by_formula(norm), "{}", norm);
        }
    }
    // And all over the range, and beyond it.
    for i in -3000..=23000 {
        let norm = i as f64 / 20000.0 + 1.0e-7;
        assert_eq!(model::norm_to_nice(num(norm)), by_formula(norm), "{}", norm);
    }
}

#[test]
fn a_density_beyond_all_measure_is_told() {
    let most = 89478486.14583331f64;
    assert!(model::is_measurable(num(most)));
    assert!(!model::is_measurable(Scalar { bits: most.to_bits() + 1 }));
    assert!(!model::is_measurable(num(f64::INFINITY)));
    assert!(model::is_measurable(num(f64::NAN)));
    let steps = |norm: f64| (24.0 * (1.0 - norm)).round() as i32;
    assert!((-5i32).checked_add(steps(most)).is_some());
    assert!((-5i32).checked_add(steps(f64::from_bits(most.to_bits() + 1))).is_none());
    assert_eq!(model::norm_to_nice(num(most)), -5);
}

#[test]
fn less_density_means_more_nice() {
    let mut last = -5;
    for i in 0..=10000 {
        let n = model::norm_to_nice(num(1.0 - i as f64 / 10000.0));
        assert!(n >= last && n <= 19);
        last = n;
    }
    assert_eq!(last, 19);
}

#[test]
fn the_spread_stays_in_its_range() {
    let mut g = Gauss::new();
    assert_eq!(f64::from_bits(g.sigma().bits), 0.35);
    g.update(num(0.9));
    assert_eq!(f64::from_bits(g.sigma().bits), 0.40);
    g.update(num(-3.0));
    assert_eq!(f64::from_bits(g.sigma().bits), 0.15);
    g.update(num(0.2));
    assert_eq!(f64::from_bits(g.sigma().bits), 0.2);
}

#[test]
fn cpu_constants_are_the_numbers_that_they_stand_for() {
    assert_eq!(f64::from_bits(sched::KEEP_BITS), 0.001);
    assert_eq!(f64::from_bits(sched::CPU_SHOWN_BITS), 0.02);
    assert_eq!(f64::from_bits(sched::GPU_SHOWN_BITS), 0.05);
    assert_eq!(sched::CYCLE_NS, sched::CYCLE_MS * 1_000_000);
}

#[test]
fn a_scan_lists_the_processes() {
    let full = ProcFiles {
        name: "42".to_string(),
        comm: Some("cc1 \n".to_string()),
        status: Some("Uid:\t33\t33\n".to_string()),
        stat: Some("42 (cc1) R 1 1 1 1 1 1 1 1 1 1 50 7 0".to_string()),
        io: Some("syscr: 12\n".to_string()),
        gpu_ema: Some(num(0.5)),
    };
    let bare = ProcFiles {
        name: "007".to_string(),
        comm: Some("x".to_string()),
        status: None,
        stat: None,
        io: None,
        gpu_ema: None,
    };
    let other = |name: &str, comm: Option<&str>| ProcFiles {
        name: name.to_string(),
        comm: comm.map(|c| c.to_string()),
        status: None,
        stat: None,
        io: None,
        gpu_ema: None,
    };
    let found = scan::scan_proc_once(&vec![
        full,
        other("self", Some("a")),
        bare,
        other("9", None),
        other("99999999999", Some("b")),
        other("", Some("c")),
    ]);
    assert_eq!(found.len(), 2);
    assert_eq!(found[0].pid, 42);
    assert_eq!(found[0].comm, "cc1");
    assert_eq!(found[0].uid, 33);
    assert_eq!(found[0].cpu_ticks, 57);
    assert_eq!(found[0].syscr, 12);
    assert_eq!(found[0].gpu_ema.bits, (0.5f64).to_bits());
    assert_eq!(found[1].pid, 7);
    assert_eq!(found[1].uid, 1000);
    assert_eq!(found[1].cpu_ticks, 0);
    assert_eq!(found[1].gpu_ema.bits, 0);
}

#[test]
fn the_last_record_of_a_name_counts() {
    let (l, n) = sched::load_learned(&vec![
        record("a", Some(0.5)),
        record("a", Some(0.25)),
        record("a", Some(0.001)),
        record("b", None),
        record("c", Some(f64::NAN)),
    ]);
    assert_eq!(n, 2);
    assert_eq!(l.share("a").bits, (0.25f64).to_bits());
    assert_eq!(l.share("b").bits, 0);
    assert_eq!(l.share("c").bits, 0);
}

#[test]
fn a_process_is_measured_since_the_last_look() {
    let mut s = ProcState::new("a".to_string(), 100, 10, num(0.5), SECOND);
    assert_eq!(s.last_ts, 200_000_000);
    assert_eq!(s.current_nice, 0);
    let d = s.measure(140, 25, SECOND);
    assert_eq!((d.ticks, d.syscr, d.elapsed_ns), (40, 15, 800_000_000));
    s.update(140, 25, num(0.7), SECOND);
    let e = s.measure(130, 20, SECOND + 5);
    assert_eq!((e.ticks, e.syscr, e.elapsed_ns), (0, 0, 100_000_000));
    let f = s.measure(140, 25, 0);
    assert_eq!(f.elapsed_ns, 100_000_000);
    assert_eq!(s.smooth_cpu.bits, (0.7f64).to_bits());
    assert_eq!(std::time::Duration::from_nanos(100_000_000).as_secs_f64(), 0.1);
}

#[test]
fn the_scheduler_leaves_itself_alone() {
    let mut s = Scheduler::new(7);
    s.enroll(&vec![entry(7, "me", 0, 0), entry(8, "other", 3, 4)], &nothing(), SECOND);
    assert_eq!(s.pids(), vec![8]);
    assert!(s.measure(&entry(7, "me", 1, 1), 2 * SECOND).is_none());
    assert!(s.measure(&entry(9, "unknown", 1, 1), 2 * SECOND).is_none());
    assert_eq!(s.measure(&entry(8, "other", 5, 5), SECOND).map(|d| d.ticks), Some(2));
    assert_eq!(s.decide(7, fallen(24)), None);
}

#[test]
fn enrolling_takes_up_what_was_learned() {
    let (l, _) = sched::load_learned(&vec![record("cc1", Some(0.5))]);
    let mut s = Scheduler::new(1);
    s.enroll(&vec![entry(2, "cc1", 9, 8), entry(2, "twin", 1, 1), entry(3, "sh", 0, 0)], &l, SECOND);
    assert_eq!(s.len(), 2);
    assert_eq!(s.get(2).map(|p| p.smooth_cpu.bits), Some((0.5f64).to_bits()));
    assert_eq!(s.get(2).map(|p| p.comm.clone()), Some("cc1".to_string()));
    assert_eq!(s.get(3).map(|p| p.smooth_cpu.bits), Some(0));
    s.enroll(&vec![entry(2, "new", 50, 50)], &l, 2 * SECOND);
    assert_eq!(s.get(2).map(|p| p.last_ticks), Some(9));
}

#[test]
fn a_nice_value_is_set_once() {
    let mut s = sched_with(&[(2, "a", 0.1)]);
    assert_eq!(s.decide(2, fallen(15)), Some(10));
    assert_eq!(s.decide(2, fallen(15)), None);
    assert_eq!(s.decide(2, fallen(0)), Some(-5));
    assert_eq!(s.decide(2, fallen(5)), Some(0));
    assert_eq!(s.decide(2, fallen(5)), None);
    assert_eq!(s.decide(99, fallen(15)), None);
    assert_eq!(s.get(2).map(|p| p.current_nice), Some(0));
}

#[test]
fn a_round_sets_what_changed_and_a_shutdown_takes_it_back() {
    let mut s = sched_with(&[(2, "a", 0.1), (3, "b", 0.2), (4, "c", 0.3)]);
    let round = vec![
        metric(2, 0.0, 0.0, 0.0),
        metric(9, 0.0, 0.0, 0.0),
        metric(3, 0.0, 0.0, 0.0),
        metric(2, 0.0, 0.0, 0.0),
    ];
    assert_eq!(s.assign(&round, &vec![fallen(15), fallen(15), fallen(5), fallen(20)]), vec![(2, 10), (2, 15)]);
    assert_eq!(s.assign(&round, &vec![fallen(20), fallen(0), fallen(24), fallen(20)]), vec![(3, 19)]);
    assert_eq!(s.sweep(&vec![2, 4]), vec![3]);
    assert_eq!(sched::shutdown_requested(true, &s).map(sorted), Some(vec![2, 4]));
}

#[test]
fn ended_processes_are_forgotten_and_told_of() {
    let mut s = sched_with(&[(2, "a", 0.1), (3, "b", 0.2), (4, "c", 0.3)]);
    let dead = s.sweep(&vec![3, 1, 50]);
    assert_eq!(sorted(dead), vec![2, 4]);
    assert_eq!(s.pids(), vec![3]);
    assert_eq!(s.get(3).map(|p| p.smooth_cpu.bits), Some((0.2f64).to_bits()));
    assert!(s.sweep(&vec![3]).is_empty());
}

#[test]
fn a_shutdown_restores_everybody() {
    let mut s = sched_with(&[(2, "a", 0.1), (3, "b", 0.2)]);
    s.decide(2, fallen(20));
    assert!(sched::shutdown_requested(false, &s).is_none());
    let all = sched::shutdown_requested(true, &s);
    assert_eq!(all.map(sorted), Some(vec![2, 3]));
}

#[test]
fn saving_keeps_the_peak_of_each_name() {
    let s = sched_with(&[
        (2, "cc1", 0.25),
        (3, "cc1", 0.75),
        (4, "sh", 0.0005),
        (5, "game", 0.9),
        (6, "cc1", 0.5),
        (7, "edge", 0.001),
        (8, "bad", f64::NAN),
    ]);
    let kept: Vec<(String, u64)> = s.save_learned().iter().map(|p| (p.comm.clone(), p.cpu.bits)).collect();
    assert_eq!(
        kept,
        vec![
            ("game".to_string(), (0.9f64).to_bits()),
            ("cc1".to_string(), (0.75f64).to_bits()),
        ]
    );
}

#[test]
fn cpu_learning_survives_a_restart() {
    let s = sched_with(&[(2, "cc1", 0.25), (3, "game", 0.75)]);
    let rows: Vec<neltex::learned::CpuRow> = s
        .save_learned()
        .iter()
        .map(|p| neltex::learned::CpuRow {
            comm: p.comm.clone(),
            cpu: format!("{:.4}", f64::from_bits(p.cpu.bits)),
        })
        .collect();
    let text = neltex::learned::cpu_file(&rows);
    let recs: Vec<Record> = neltex::learned::read_cpu_file(&text)
        .iter()
        .map(|r| record(&r.comm, r.cpu.parse().ok()))
        .collect();
    let (l, n) = sched::load_learned(&recs);
    assert_eq!(n, 2);
    assert_eq!(l.share("cc1").bits, (0.25f64).to_bits());
    assert_eq!(l.share("game").bits, (0.75f64).to_bits());
}

#[test]
fn the_scale_of_the_rates_is_at_least_one() {
    let none: Vec<Metric> = Vec::new();
    assert_eq!(sched::max_syscr(&none).bits, (1.0f64).to_bits());
    let small = vec![metric(1, 0.0, 0.0, 0.5), metric(2, 0.0, 0.0, f64::NAN)];
    assert_eq!(sched::max_syscr(&small).bits, (1.0f64).to_bits());
    let some = vec![metric(1, 0.0, 0.0, 3.5), metric(2, 0.0, 0.0, 120.0), metric(3, 0.0, 0.0, 7.0)];
    assert_eq!(sched::max_syscr(&some).bits, (120.0f64).to_bits());
}

#[test]
fn loads_that_are_no_numbers_cannot_be_ordered() {
    assert!(sched::is_comparable(&vec![num(f64::NAN)]));
    assert!(sched::is_comparable(&Vec::new()));
    assert!(sched::is_comparable(&vec![num(1.0), num(2.0)]));
    assert!(!sched::is_comparable(&vec![num(1.0), num(f64::NAN)]));
}

#[test]
fn a_report_tells_of_the_heaviest_four() {
    let s = sched_with(&[(2, "a", 0.1), (3, "b", 0.2), (4, "c", 0.3), (5, "d", 0.4), (6, "e", 0.5)]);
    let metrics = vec![
        metric(2, 0.10, 0.0, 0.0),
        metric(3, 0.30, 0.06, 0.0),
        metric(9, 0.90, 0.0, 0.0),
        metric(5, 0.01, 0.04, 0.0),
        metric(6, 0.20, 0.05, 0.0),
        metric(4, 0.01, 0.02, 0.0),
    ];
    let loads: Vec<Scalar> = metrics
        .iter()
        .map(|m| num(f64::from_bits(m.cpu_rate.bits) + f64::from_bits(m.gpu_ema.bits)))
        .collect();
    let rows: Vec<(usize, bool)> = s.status(&metrics, &loads).iter().map(|r| (r.index, r.with_gpu)).collect();
    assert_eq!(rows, vec![(1, true), (4, false), (0, false)]);
}

#[test]
fn a_report_leaves_out_the_idle() {
    let s = sched_with(&[(2, "a", 0.1)]);
    let idle = vec![metric(2, 0.019, 0.049, 0.0)];
    assert!(s.status(&idle, &vec![num(0.068)]).is_empty());
    let odd = vec![metric(2, f64::NAN, 0.0, 0.0)];
    assert_eq!(s.status(&odd, &vec![num(f64::NAN)]).len(), 1);
}

#[test]
fn rounds_of_the_cpu_scheduler_have_their_duties() {
    let a = sched::due(0);
    assert!(a.status && !a.save && !a.clean);
    let b = sched::due(75);
    assert!(!b.status && b.save && !b.clean);
    let c = sched::due(300);
    assert!(c.status && c.save && c.clean);
}

#[test]
fn the_timer_goes_off_every_round() {
    assert_eq!(sched::timer_spec(800), [0, 800_000_000, 0, 800_000_000]);
    assert_eq!(sched::timer_spec(0), [0, 0, 0, 0]);
}

#[test]
fn cpu_history_survives_through_the_file() {
    let s = sched_with(&[
        (2, "cc1", 0.25),
        (3, "cc1", 0.75),
        (4, "sh", 0.0005),
        (5, "Web Content", 0.90004),
        (6, "a,b", 0.5),
    ]);
    let rows: Vec<CpuRow> = s
        .save_learned()
        .iter()
        .map(|p| CpuRow { comm: p.comm.clone(), cpu: format!("{:.4}", f64::from_bits(p.cpu.bits)) })
        .collect();
    let recs: Vec<Record> = learned::read_cpu_file(&learned::cpu_file(&rows))
        .iter()
        .map(|r| record(&r.comm, r.cpu.parse::<f64>().ok()))
        .collect();
    let (next, n) = sched::load_learned(&recs);
    assert_eq!(n, 2);
    assert_eq!(next.share("cc1").bits, (0.75f64).to_bits());
    assert_eq!(next.share("Web Content").bits, (0.9f64).to_bits());
    assert_eq!(next.share("sh").bits, 0);
    // A comma in a name cuts it short, and its row is no number.
    assert_eq!(next.share("a,b").bits, 0);
    assert_eq!(next.share("a").bits, 0);
}

#[test]
fn a_rate_has_a_tenth_of_a_second_at_least() {
    let p = ProcState::new("a".to_string(), 100, 50, num(0.0), SECOND);
    let d = p.measure(90, 60, SECOND - 800_000_000);
    assert_eq!((d.ticks, d.syscr, d.elapsed_ns), (0, 10, 100_000_000));
    let back = p.measure(101, 10, 0);
    assert_eq!((back.ticks, back.syscr, back.elapsed_ns), (1, 0, 100_000_000));
}

#[test]
fn the_gpu_share_of_a_score_arrives() {
    let content = score::score_text(true, "0.6000", "0.1000", "0.8123", "0.3000", 5);
    let files = |text: Option<&str>| ProcFiles {
        name: "12".to_string(),
        comm: Some("game\n".to_string()),
        status: None,
        stat: None,
        io: None,
        gpu_ema: score::read_ntvidia_gpu_ema(text).and_then(|t| t.parse::<f64>().ok()).map(num),
    };
    let share = |text: Option<&str>| scan::scan_proc_once(&vec![files(text)])[0].gpu_ema.bits;
    assert_eq!(share(Some(content.as_str())), (0.8123f64).to_bits());
    assert_eq!(share(None), 0);
    assert_eq!(share(Some("x=1\n")), 0);
    assert_eq!(share(Some("gpu_ema=much\ngpu_ema=0.5\n")), 0);
}

#[test]
fn cpu_records_can_be_counted() {
    assert!(sched::is_countable(&Vec::new()));
    assert!(sched::is_countable(&vec![record("a", Some(0.5)), record("b", None)]));
}
