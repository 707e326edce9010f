use neltex::class::ProcClass;
use neltex::learned;
use neltex::learned::GpuRow;
use neltex::ntvidia::cycle;
use neltex::ntvidia::cycle::Signal;
use neltex::ntvidia::scan;
use neltex::ntvidia::scan::ProcFiles;
use neltex::ntvidia::scan::UidTable;
use neltex::ntvidia::smi;
use neltex::ntvidia::smi::GpuMetrics;
use neltex::ntvidia::state;
use neltex::ntvidia::state::ProcState;
use neltex::ntvidia::state::Spread;
use neltex::ntvidia::state::StartDensity;
use neltex::ntvidia::state::Step;
use neltex::ntvidia::table;
use neltex::ntvidia::table::Record;
use neltex::ntvidia::table::Table;
use neltex::scalar::Position;
use neltex::scalar::Scalar;
use neltex::score;

fn num(x: f64) -> Scalar {
    Scalar { bits: x.to_bits() }
}

fn start() -> StartDensity {
    StartDensity { kernel: num(0.25), system: num(0.5), user: num(0.75) }
}

fn step(ema: f64, x: f64) -> Step {
    Step {
        gpu_rate_ema: num(ema),
        x_pos: Position::at(num(x)),
        sigma: Spread::at(num(0.45)),
        density: num(0.125),
    }
}

fn record(comm: &str, uid: u32, ema: Option<f64>, x: f64) -> Record {
    Record {
        comm: comm.to_string(),
        uid,
        ema: ema.map(num),
        x_pos: Position::at(num(x)),
        density: num(0.5),
    }
}

fn files(name: &str, comm: Option<&str>, uid: &str, targets: &[&str]) -> ProcFiles {
    ProcFiles {
        name: name.to_string(),
        comm: comm.map(|c| format!("{}\n", c)),
        status: Some(format!("Name:\tx\nUid:\t{}\t0\t0\t0\n", uid)),
        fd_targets: targets.iter().map(|t| t.to_string()).collect(),
    }
}

fn owners(rows: &[(&str, u32)]) -> UidTable {
    let mut t = UidTable::new();
    for (name, uid) in rows {
        t.note(name, *uid);
    }
    t
}

fn table_of(names: &[(&str, u32)]) -> Table {
    let mut t = Table::new();
    t.enroll(&owners(names), &start(), 5);
    t
}

#[test]
fn start_positions_are_the_weighted_classes() {
    for (class, x_priv) in [
        (ProcClass::Kernel, -0.30f64),
        (ProcClass::System, -0.10),
        (ProcClass::User, 0.20),
    ] {
        let x = (0.60f64 * 0.0 + 0.40 * x_priv).clamp(-1.0, 1.0);
        assert_eq!(state::start_position(class).get().bits, x.to_bits());
    }
    let sigma = (0.15f64 + 0.50) / 2.0;
    assert_eq!(state::start_spread().get().bits, sigma.to_bits());
}

#[test]
fn constants_are_the_numbers_that_they_stand_for() {
    assert_eq!(f64::from_bits(state::SIGMA_MIN_BITS), 0.15);
    assert_eq!(f64::from_bits(state::SIGMA_MAX_BITS), 0.50);
    assert_eq!(f64::from_bits(state::GPU_THRESHOLD_BITS), 0.50);
    assert_eq!(f64::from_bits(neltex::ntvidia::table::KEEP_BITS), 0.01);
}

#[test]
fn spread_is_clamped() {
    assert_eq!(Spread::at(num(0.0)).get().bits, (0.15f64).to_bits());
    assert_eq!(Spread::at(num(3.0)).get().bits, (0.50f64).to_bits());
    assert_eq!(Spread::at(num(0.3)).get().bits, (0.3f64).to_bits());
}

#[test]
fn a_new_process_is_off_the_gpu() {
    let s = ProcState::new("game", 1000, &start(), 99);
    assert_eq!(s.comm, "game");
    assert_eq!(s.uid, 1000);
    assert_eq!(s.gpu_rate_ema.bits, 0);
    assert!(!s.use_gpu);
    assert_eq!(s.density.bits, (0.75f64).to_bits());
    assert_eq!(s.x_pos.get().bits, (0.4f64 * 0.2).to_bits());
    assert_eq!(s.last_updated_ts, 99);
    assert_eq!(ProcState::new("init", 0, &start(), 1).density.bits, (0.25f64).to_bits());
    assert_eq!(ProcState::new("sshd", 22, &start(), 1).density.bits, (0.5f64).to_bits());
}

#[test]
fn a_learned_process_is_on_the_gpu_beyond_the_threshold() {
    let on = ProcState::new_with_ema("game", 1000, num(1.0), Position::at(num(0.68)), num(0.1), 3);
    assert!(on.use_gpu);
    assert_eq!(on.gpu_rate_ema.bits, (1.0f64).to_bits());
    let off = ProcState::new_with_ema("game", 1000, num(0.7), Position::at(num(0.5)), num(0.1), 3);
    assert!(!off.use_gpu);
    let odd = ProcState::new_with_ema("init", 0, num(2.0), Position::at(num(0.9)), num(0.1), 3);
    assert!(odd.use_gpu);
}

#[test]
fn an_update_takes_in_the_numbers_of_a_user() {
    let mut s = ProcState::new("game", 1000, &start(), 1);
    s.update(&step(0.9, 0.62), 7);
    assert!(s.use_gpu);
    assert_eq!(s.gpu_rate_ema.bits, (0.9f64).to_bits());
    assert_eq!(s.x_pos.get().bits, (0.62f64).to_bits());
    assert_eq!(s.sigma.get().bits, (0.45f64).to_bits());
    assert_eq!(s.density.bits, (0.125f64).to_bits());
    assert_eq!(s.last_updated_ts, 7);
    s.update(&step(0.5, 0.5), 8);
    assert!(!s.use_gpu);
}

#[test]
fn an_update_takes_nothing_in_of_the_system() {
    let mut s = ProcState::new_with_ema("init", 0, num(2.0), Position::at(num(0.9)), num(0.1), 3);
    s.update(&step(0.5, 0.8), 9);
    assert!(!s.use_gpu);
    assert_eq!(s.gpu_rate_ema.bits, (2.0f64).to_bits());
    assert_eq!(s.last_updated_ts, 3);
    let mut k = ProcState::new("kworker/1", 1000, &start(), 3);
    k.update(&step(0.5, 0.8), 9);
    assert!(!k.use_gpu);
    assert_eq!(k.gpu_rate_ema.bits, 0);
}

#[test]
fn score_of_a_state_goes_to_its_file() {
    let mut s = ProcState::new("my game", 1000, &start(), 1);
    s.update(&step(0.9, 0.62), 7);
    let (path, text) = state::write_score("my game", &s, "0.6200", "0.1250", "0.9000", "0.4500");
    assert_eq!(path, "/run/ntvidia/scores/my_game");
    assert_eq!(
        text,
        "use_gpu=1\nx=0.6200\ndensity=0.1250\ngpu_ema=0.9000\nsigma=0.4500\nts=7\n"
    );
}

#[test]
fn scan_keeps_the_largest_owner_of_a_name() {
    let found = scan::scan_proc(&vec![
        files("1", Some("init"), "0", &[]),
        files("20", Some("game"), "1000", &["/dev/null", "/dev/nvidia0"]),
        files("21", Some("game"), "1005", &["socket:[1]"]),
        files("22", Some("game"), "7", &["/dev/nvidiactl"]),
        files("self", Some("ghost"), "0", &["/dev/nvidia0"]),
        files("30", None, "0", &["/dev/nvidia0"]),
    ]);
    assert_eq!(found.all_comms.len(), 2);
    assert_eq!(found.all_comms.get("init"), Some(0));
    assert_eq!(found.all_comms.get("game"), Some(1005));
    assert_eq!(found.nvidia_users.len(), 1);
    assert_eq!(found.nvidia_users.get("game"), Some(1000));
    assert!(!found.all_comms.contains("ghost"));
    assert_eq!(found.proc_count(), 2);
}

#[test]
fn scan_takes_a_default_owner() {
    let mut f = files("1", Some("x"), "0", &[]);
    f.status = None;
    let found = scan::scan_proc(&vec![f, files("2", Some("y"), "?", &[])]);
    assert_eq!(found.all_comms.get("x"), Some(1000));
    assert_eq!(found.all_comms.get("y"), Some(1000));
    assert_eq!(scan::scan_proc(&Vec::new()).proc_count(), 1);
}

#[test]
fn smi_load_line_has_three_fields() {
    let got = smi::smi_fields(" 37, 512, 2048\n");
    assert_eq!(got, Some(("37".to_string(), "512".to_string(), "2048".to_string())));
    let two = smi::smi_fields("1,2,3,4\n5,6,7");
    assert_eq!(two, Some(("1".to_string(), "2".to_string(), "3".to_string())));
    assert_eq!(smi::smi_fields("37, 512"), None);
    assert_eq!(smi::smi_fields(""), None);
}

#[test]
fn smi_processes_go_by_their_file_names() {
    let out = "12, /usr/bin/blender\nbad, /x\n13, python3\n14\n15, /opt/a,b/\n16, /opt/./x/.\n17, /opt/..\n18,\n19, /\n";
    let got = smi::compute_procs(out);
    let want: Vec<(u32, String)> = vec![
        (12, "blender".to_string()),
        (13, "python3".to_string()),
        (15, "a,b".to_string()),
        (16, "x".to_string()),
        (17, "".to_string()),
        (18, "".to_string()),
        (19, "".to_string()),
    ];
    assert_eq!(got, want);
}

#[test]
fn smi_file_names_agree_with_the_library() {
    for path in ["a", "/a/b", "a/", "a//", "a/.", "./a", ".", "..", "a/..", "/", "", "./.", "a/./b/./", "...", ".a", "//x//"] {
        let want = std::path::Path::new(path)
            .file_name()
            .unwrap_or_default()
            .to_string_lossy()
            .to_string();
        let line = format!("1,{}", path);
        assert_eq!(smi::compute_procs(&line), vec![(1u32, want)]);
    }
}

#[test]
fn smi_answers_all_or_nothing() {
    let all = smi::query_nvidia_smi(Some(num(0.37)), Some(num(512.0)), Some(num(2048.0)), Some("1, a\n"));
    match all {
        Some(m) => {
            assert_eq!(m.util_pct.bits, (0.37f64).to_bits());
            assert_eq!(m.mem_used_mib.bits, (512.0f64).to_bits());
            assert_eq!(m.mem_total_mib.bits, (2048.0f64).to_bits());
            assert_eq!(m.compute_procs, vec![(1u32, "a".to_string())]);
        }
        None => panic!("no answer"),
    }
    assert!(smi::query_nvidia_smi(None, Some(num(1.0)), Some(num(1.0)), Some("")).is_none());
    assert!(smi::query_nvidia_smi(Some(num(1.0)), None, Some(num(1.0)), Some("")).is_none());
    assert!(smi::query_nvidia_smi(Some(num(1.0)), Some(num(1.0)), None, Some("")).is_none());
    assert!(smi::query_nvidia_smi(Some(num(1.0)), Some(num(1.0)), Some(num(1.0)), None).is_none());
    let none = GpuMetrics::default();
    assert_eq!(none.util_pct.bits, 0);
    assert!(none.compute_procs.is_empty());
}

#[test]
fn enrolling_adds_what_is_new() {
    let mut t = table_of(&[("a", 1000)]);
    let added = t.enroll(&owners(&[("a", 5), ("b", 0), ("c", 1000)]), &start(), 9);
    assert_eq!(added, vec!["b".to_string(), "c".to_string()]);
    assert_eq!(t.len(), 3);
    assert_eq!(t.get("a").map(|s| (s.uid, s.last_updated_ts)), Some((1000, 5)));
    assert_eq!(t.get("b").map(|s| (s.uid, s.last_updated_ts)), Some((0, 9)));
    assert!(t.get("d").is_none());
}

#[test]
fn loading_takes_the_first_record_of_a_name() {
    let mut t = table_of(&[("known", 1000)]);
    let n = t.load_learned(
        &vec![
            record("known", 7, Some(0.9), 0.6),
            record("a", 1, Some(0.8), 0.56),
            record("a", 2, Some(0.7), 0.5),
            record("b", 3, None, 0.1),
            record("c", 3, Some(0.01), 0.1),
            record("d", 3, Some(f64::NAN), 0.1),
        ],
        11,
    );
    assert_eq!(n, 3);
    assert_eq!(t.len(), 2);
    assert_eq!(t.get("known").map(|s| s.uid), Some(1000));
    assert_eq!(t.get("a").map(|s| (s.uid, s.use_gpu)), Some((1, true)));
    assert!(t.get("b").is_none() && t.get("c").is_none() && t.get("d").is_none());
}

#[test]
fn saving_keeps_what_is_worth_it_by_falling_share() {
    let mut t = Table::new();
    t.load_learned(
        &vec![
            record("low", 1000, Some(0.02), 0.1),
            record("high", 1001, Some(0.9), 0.6),
            record("mid", 0, Some(0.5), 0.3),
        ],
        1,
    );
    t.enroll(&owners(&[("idle", 1000)]), &start(), 1);
    let kept: Vec<(String, u32)> = t.save_learned().iter().map(|k| (k.comm.clone(), k.uid)).collect();
    assert_eq!(
        kept,
        vec![("high".to_string(), 1001), ("mid".to_string(), 0), ("low".to_string(), 1000)]
    );
}

#[test]
fn learning_survives_a_restart() {
    let mut t = Table::new();
    t.load_learned(&vec![record("a", 7, Some(0.25), 0.2), record("b", 8, Some(0.75), 0.5)], 1);
    let rows: Vec<neltex::learned::GpuRow> = t
        .save_learned()
        .iter()
        .map(|k| neltex::learned::GpuRow {
            comm: k.comm.clone(),
            ema: format!("{:.4}", f64::from_bits(k.ema.bits)),
            uid: k.uid,
        })
        .collect();
    let text = neltex::learned::gpu_file(&rows);
    let recs: Vec<Record> = neltex::learned::read_gpu_file(&text)
        .iter()
        .map(|r| record(&r.comm, r.uid, r.ema.parse().ok(), 0.0))
        .collect();
    let mut next = Table::new();
    assert_eq!(next.load_learned(&recs, 2), 2);
    assert_eq!(next.get("a").map(|s| (s.uid, s.gpu_rate_ema.bits)), Some((7, (0.25f64).to_bits())));
    assert_eq!(next.get("b").map(|s| (s.uid, s.gpu_rate_ema.bits)), Some((8, (0.75f64).to_bits())));
}

#[test]
fn scores_grow_stale() {
    let mut t = Table::new();
    t.load_learned(&vec![record("busy", 1000, Some(0.5), 0.3)], 1000);
    t.enroll(&owners(&[("idle", 1000)]), &start(), 1000);
    assert!(!t.stale("idle", 1300));
    assert!(t.stale("idle", 1301));
    assert!(!t.stale("idle", 5));
    assert!(!t.stale("busy", 99999));
    assert!(t.stale("gone", 0));
    let files = vec!["busy".to_string(), "gone".to_string(), "idle".to_string()];
    assert_eq!(t.clean_stale_scores(&files, 2000), vec![1, 2]);
}

#[test]
fn the_plan_gives_everybody_a_turn() {
    let t = table_of(&[("game", 1000), ("calc", 1000), ("idle", 5)]);
    let found = scan::ProcScanResult {
        nvidia_users: owners(&[("game", 1003)]),
        all_comms: owners(&[("game", 1003), ("calc", 1000), ("idle", 5)]),
    };
    let mut gpu = GpuMetrics::default();
    gpu.util_pct = num(0.3);
    gpu.compute_procs = vec![
        (1, "calc".to_string()),
        (2, "game".to_string()),
        (3, "calc".to_string()),
        (4, "new".to_string()),
    ];
    let plan = cycle::plan(&t, &found, &gpu);
    let names: Vec<(String, u32)> = plan.iter().map(|w| (w.comm.clone(), w.uid)).collect();
    assert_eq!(
        names,
        vec![
            ("game".to_string(), 1003),
            ("calc".to_string(), 1000),
            ("calc".to_string(), 1000),
            ("new".to_string(), 1000),
            ("idle".to_string(), 5),
        ]
    );
    assert!(matches!(plan[0].signal, Signal::Open));
    match plan[1].signal {
        Signal::Compute(s) => assert_eq!(s.bits, (0.5f64).to_bits()),
        _ => panic!("not computing"),
    }
    assert!(matches!(plan[4].signal, Signal::Idle));
}

#[test]
fn a_busy_gpu_counts_in_full() {
    let t = Table::new();
    let found = scan::ProcScanResult { nvidia_users: UidTable::new(), all_comms: UidTable::new() };
    let mut gpu = GpuMetrics::default();
    gpu.util_pct = num(0.8);
    gpu.compute_procs = vec![(1, "calc".to_string())];
    match cycle::plan(&t, &found, &gpu)[0].signal {
        Signal::Compute(s) => assert_eq!(s.bits, (0.8f64).to_bits()),
        _ => panic!("not computing"),
    }
}

#[test]
fn a_turn_makes_known_and_takes_the_owner() {
    let mut t = table_of(&[("game", 1000)]);
    let open = cycle::Work { comm: "game".to_string(), uid: 1003, signal: Signal::Open };
    assert!(cycle::begin(&mut t, &open, &start(), 20).is_some());
    assert_eq!(t.get("game").map(|s| s.uid), Some(1003));
    let calc = cycle::Work { comm: "game".to_string(), uid: 1000, signal: Signal::Compute(num(0.5)) };
    assert!(cycle::begin(&mut t, &calc, &start(), 20).is_some());
    assert_eq!(t.get("game").map(|s| s.uid), Some(1003));
    let fresh = cycle::Work { comm: "new".to_string(), uid: 1000, signal: Signal::Compute(num(0.5)) };
    match cycle::begin(&mut t, &fresh, &start(), 20) {
        Some((ema, sigma)) => {
            assert_eq!(ema.bits, 0);
            assert_eq!(sigma.get().bits, ((0.15f64 + 0.50) / 2.0).to_bits());
        }
        None => panic!("not known"),
    }
    let idle = cycle::Work { comm: "nobody".to_string(), uid: 1, signal: Signal::Idle };
    assert!(cycle::begin(&mut t, &idle, &start(), 20).is_none());
    assert_eq!(t.len(), 2);
}

#[test]
fn an_observation_tells_whether_it_moved_the_name() {
    let mut t = table_of(&[("game", 1000), ("init", 0)]);
    assert!(t.observe("game", &step(0.9, 0.6), 2));
    assert!(!t.observe("game", &step(0.95, 0.65), 3));
    assert!(t.observe("game", &step(0.5, 0.4), 4));
    assert!(!t.observe("init", &step(0.9, 0.9), 5));
    assert!(!t.observe("nobody", &step(0.9, 0.9), 5));
    assert_eq!(t.len(), 2);
}

#[test]
fn reports_count_the_names_on_the_gpu() {
    let mut t = table_of(&[("game", 1000), ("b", 1000)]);
    assert_eq!(cycle::report(&t, 0), None);
    t.observe("game", &step(0.9, 0.6), 2);
    assert_eq!(t.gpu_count(), 1);
    assert_eq!(cycle::report(&t, 20), Some(1));
    assert_eq!(cycle::report(&t, 21), None);
}

#[test]
fn rounds_of_the_gpu_scheduler_have_their_duties() {
    let first = cycle::due(0);
    assert!(first.query && first.report && !first.save && !first.clean);
    let d = cycle::due(75);
    assert!(d.query && !d.report && d.save && !d.clean);
    let e = cycle::due(150);
    assert!(e.query && e.report && e.save && e.clean);
    let f = cycle::due(7);
    assert!(!f.query && !f.report && !f.save && !f.clean);
}

#[test]
fn a_shutdown_of_the_gpu_scheduler_saves() {
    let mut t = Table::new();
    t.load_learned(&vec![record("a", 7, Some(0.25), 0.2)], 1);
    assert!(cycle::shutdown_requested(false, &t).is_none());
    let kept = cycle::shutdown_requested(true, &t);
    assert_eq!(kept.map(|v| v.len()), Some(1));
}

#[test]
fn a_score_is_due_whenever_a_name_moves() {
    let mut t = Table::new();
    t.load_learned(&vec![record("daemon", 0, Some(5.0), 1.0), record("game", 1000, Some(0.9), 0.6)], 10);
    let mut scores: Vec<(String, bool)> = Vec::new();
    for i in 0..t.len() {
        scores.push((t.row(i).comm.clone(), t.row(i).use_gpu));
    }
    assert_eq!(scores, vec![("daemon".to_string(), true), ("game".to_string(), true)]);
    for name in t.enroll(&owners(&[("shell", 1000), ("game", 1000)]), &start(), 11) {
        scores.push((name, false));
    }
    assert_eq!(scores.len(), 3);

    // The daemon is root's: it leaves the GPU, and nothing else of it changes.
    assert!(t.observe("daemon", &step(0.9, 0.9), 12));
    scores[0].1 = false;
    assert_eq!(t.get("daemon").unwrap().gpu_rate_ema.bits, 5.0f64.to_bits());
    assert_eq!(t.get("daemon").unwrap().last_updated_ts, 10);
    assert!(!t.observe("daemon", &step(0.9, 0.9), 13));
    assert!(!t.observe("game", &step(0.8, 0.55), 13));
    assert!(t.observe("shell", &step(0.9, 0.62), 13));
    scores[2].1 = true;

    for (name, told) in &scores {
        assert_eq!(t.get(name).unwrap().use_gpu, *told);
    }
}

#[test]
fn a_score_at_the_limit_stays() {
    let mut t = Table::new();
    t.enroll(&owners(&[("app", 1000)]), &start(), 0);
    t.observe("app", &step(0.01, 0.1), 0);
    assert!(!t.stale("app", 1000));
    t.observe("app", &step(0.0099, 0.1), 0);
    assert!(t.stale("app", 1000));
}

#[test]
fn gpu_history_survives_through_the_file() {
    let mut t = Table::new();
    t.load_learned(
        &vec![
            record("game", 1001, Some(0.81234), 0.6),
            record("Web Content", 1000, Some(0.25), 0.2),
            record("#odd", 1000, Some(0.5), 0.2),
        ],
        0,
    );
    t.enroll(&owners(&[("shell", 1000)]), &start(), 0);
    let rows: Vec<GpuRow> = t
        .save_learned()
        .iter()
        .map(|k| GpuRow {
            comm: k.comm.clone(),
            ema: format!("{:.4}", f64::from_bits(k.ema.bits)),
            uid: k.uid,
        })
        .collect();
    let recs: Vec<Record> = learned::read_gpu_file(&learned::gpu_file(&rows))
        .iter()
        .map(|r| record(&r.comm, r.uid, r.ema.parse::<f64>().ok(), 0.1))
        .collect();
    let mut next = Table::new();
    assert_eq!(next.load_learned(&recs, 9), 2);
    assert_eq!(next.len(), 2);
    assert_eq!(next.get("game").map(|s| s.uid), Some(1001));
    assert_eq!(next.get("game").map(|s| s.gpu_rate_ema.bits), Some((0.8123f64).to_bits()));
    assert_eq!(next.get("Web Content").map(|s| s.gpu_rate_ema.bits), Some((0.25f64).to_bits()));
    // A name that starts like a comment does not come back.
    assert!(!next.contains("#odd"));
}

#[test]
fn a_learned_share_of_zero_is_a_new_process() {
    for (comm, uid) in [("app", 1000), ("dbus", 100), ("init", 0), ("kworker/0", 1000)] {
        let class = ProcClass::from_comm(comm, uid);
        let new = ProcState::new(comm, uid, &start(), 7);
        let learned = ProcState::new_with_ema(
            comm,
            uid,
            num(0.0),
            state::start_position(class),
            new.density,
            7,
        );
        assert_eq!(format!("{:?}", new), format!("{:?}", learned));
    }
}

#[test]
fn a_name_with_a_blank_loses_its_score_file() {
    let mut t = Table::new();
    t.load_learned(
        &vec![record("Web Content", 1000, Some(0.9), 0.6), record("game", 1000, Some(0.9), 0.6)],
        0,
    );
    let files = vec![score::sanitize_comm("Web Content"), score::sanitize_comm("game")];
    assert_eq!(files, vec!["Web_Content".to_string(), "game".to_string()]);
    assert_eq!(t.clean_stale_scores(&files, 1), vec![0]);
}

#[test]
fn gpu_records_can_be_counted() {
    assert!(table::is_countable(&Vec::new()));
    assert!(table::is_countable(&vec![record("a", 1000, Some(0.5), 0.3), record("b", 1000, None, 0.3)]));
}
