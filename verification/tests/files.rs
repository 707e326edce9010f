use neltex::learned;
use neltex::learned::CpuRow;
use neltex::learned::GpuRow;
use neltex::score;

fn gpu(comm: &str, ema: &str, uid: u32) -> GpuRow {
    GpuRow { comm: comm.to_string(), ema: ema.to_string(), uid }
}

fn cpu(comm: &str, share: &str) -> CpuRow {
    CpuRow { comm: comm.to_string(), cpu: share.to_string() }
}

fn gpu_tuples(v: &Vec<GpuRow>) -> Vec<(String, String, u32)> {
    v.iter().map(|r| (r.comm.clone(), r.ema.clone(), r.uid)).collect()
}

fn cpu_tuples(v: &Vec<CpuRow>) -> Vec<(String, String)> {
    v.iter().map(|r| (r.comm.clone(), r.cpu.clone())).collect()
}

#[test]
fn sanitized_names_agree_with_the_library() {
    for s in ["firefox", "Web Content", "kworker/0:1", "a-b_c", "..", "/", "caf\u{e9}", "\u{4e2d}\u{2460}", ""] {
        let want: String = s
            .chars()
            .map(|c| if c.is_alphanumeric() || c == '-' || c == '_' { c } else { '_' })
            .collect();
        let got = score::sanitize_comm(s);
        assert_eq!(got, want);
        assert!(!got.contains('/'));
        assert_eq!(score::sanitize_comm(&got), got);
    }
    assert_eq!(score::sanitize_comm("Web Content"), "Web_Content");
}

#[test]
fn sanitized_ascii_is_letters_and_digits() {
    let mut n: u8 = 0;
    while n < 128 {
        let c = n as char;
        let kept = c.is_ascii_alphanumeric() || c == '-' || c == '_';
        let want = if kept { c } else { '_' };
        assert_eq!(score::sanitize_comm(&c.to_string()), want.to_string());
        n += 1;
    }
}

#[test]
fn score_paths_lie_in_the_directory() {
    assert_eq!(score::score_path("Web Content"), "/run/ntvidia/scores/Web_Content");
    assert_eq!(score::score_path("../x"), "/run/ntvidia/scores/___x");
    assert_eq!(score::score_path(""), "/run/ntvidia/scores/");
}

#[test]
fn score_text_is_six_lines() {
    let got = score::score_text(true, "0.6800", "0.0100", "1.0000", "0.5000", 1700000000);
    let want = "use_gpu=1\nx=0.6800\ndensity=0.0100\ngpu_ema=1.0000\nsigma=0.5000\nts=1700000000\n";
    assert_eq!(got, want);
    let off = score::score_text(false, "0.0800", "0.9", "0.0000", "0.3250", 0);
    assert_eq!(off, "use_gpu=0\nx=0.0800\ndensity=0.9\ngpu_ema=0.0000\nsigma=0.3250\nts=0\n");
}

#[test]
fn score_is_read_back() {
    let s = score::score_text(true, "0.6800", "0.0100", "0.9876", "0.5000", 17);
    assert_eq!(score::read_ntvidia_gpu_ema(Some(&s)), Some("0.9876".to_string()));
    assert_eq!(score::read_ntvidia_gpu_ema(Some("x=1\n")), None);
    assert_eq!(score::read_ntvidia_gpu_ema(Some("gpu_ema= 0.5 \r\n")), Some("0.5".to_string()));
    assert_eq!(score::read_ntvidia_gpu_ema(Some("gpu_ema=")), Some("".to_string()));
    assert_eq!(score::read_ntvidia_gpu_ema(Some(" gpu_ema=1\ngpu_ema=2\n")), Some("2".to_string()));
    assert_eq!(score::read_ntvidia_gpu_ema(None), None);
}

#[test]
fn gpu_file_has_a_comment_and_a_line_each() {
    let rows = vec![gpu("brave", "0.9000", 1000), gpu("Web Content", "0.0500", 0)];
    let text = learned::gpu_file(&rows);
    assert_eq!(
        text,
        "# NTvidia learned \u{2014} comm,gpu_rate_ema,uid\nbrave,0.9000,1000\nWeb Content,0.0500,0\n"
    );
    assert_eq!(gpu_tuples(&learned::read_gpu_file(&text)), gpu_tuples(&rows));
}

#[test]
fn gpu_file_lines_are_read_leniently() {
    let text = "# comment\n\nname\n a , 0.5 \nb,x\nc,0.25,77,88\nd,0.125, 12 \ne,1,-3\r\n#f,1\n";
    let got = gpu_tuples(&learned::read_gpu_file(text));
    let want = vec![
        ("a".to_string(), "0.5".to_string(), 1000),
        ("b".to_string(), "x".to_string(), 1000),
        ("c".to_string(), "0.25".to_string(), 1000),
        ("d".to_string(), "0.125".to_string(), 12),
        ("e".to_string(), "1".to_string(), 1000),
    ];
    assert_eq!(got, want);
}

#[test]
fn gpu_names_with_commas_do_not_come_back() {
    let rows = vec![gpu("a,b", "0.5", 7), gpu("#c", "0.5", 7), gpu("d", "0.5", 7)];
    let got = gpu_tuples(&learned::read_gpu_file(&learned::gpu_file(&rows)));
    assert_eq!(
        got,
        vec![
            ("a".to_string(), "b".to_string(), 1000),
            ("d".to_string(), "0.5".to_string(), 7),
        ]
    );
}

#[test]
fn cpu_file_has_a_comment_and_a_line_each() {
    let rows = vec![cpu("cc1", "0.8500"), cpu("bash", "0.0100")];
    let text = learned::cpu_file(&rows);
    assert_eq!(text, "# TGD learned \u{2014} comm,smooth_cpu\ncc1,0.8500\nbash,0.0100\n");
    assert_eq!(cpu_tuples(&learned::read_cpu_file(&text)), cpu_tuples(&rows));
}

#[test]
fn cpu_file_lines_are_read_leniently() {
    let got = cpu_tuples(&learned::read_cpu_file("#x,1\n\ny\n a , 0.5 \nb,1,2\n"));
    assert_eq!(
        got,
        vec![("a".to_string(), "0.5".to_string()), ("b".to_string(), "1,2".to_string())]
    );
    assert!(learned::read_cpu_file("").is_empty());
}
