//! What the operations that both schedulers share promise, each in terms of what
//! goes in and what comes out.

use crate::class;
use crate::class::ProcClass;
use crate::clock;
use crate::learned;
use crate::learned::CpuFields;
use crate::learned::CpuRow;
use crate::learned::GpuFields;
use crate::learned::GpuRow;
use crate::order;
use crate::procfs;
use crate::scalar::Position;
use crate::scalar::Scalar;
use crate::score;
use crate::text;
use std::time::SystemTime;
use vstd::prelude::*;

verus! {

// ---------------------------------------------------------------------------
// Numbers
// ---------------------------------------------------------------------------

/// Of two numbers without a sign the one with the smaller pattern is smaller; nothing
/// is smaller or larger than what is no number.
pub proof fn law_lt(a: Scalar, b: Scalar, r: bool)
    requires
        call_ensures(Scalar::lt, (a, b), r),
    ensures
        a.bits <= 0x7FF0_0000_0000_0000 && b.bits <= 0x7FF0_0000_0000_0000 ==> (r <==> a.bits
            < b.bits),
        0x8000_0000_0000_0000 <= a.bits <= 0xFFF0_0000_0000_0000 && 0x8000_0000_0000_0000 <= b.bits
            <= 0xFFF0_0000_0000_0000 ==> (r <==> a.bits > b.bits),
        0x8000_0000_0000_0000 < a.bits <= 0xFFF0_0000_0000_0000 && b.bits <= 0x7FF0_0000_0000_0000
            ==> r,
        a.bits <= 0x7FF0_0000_0000_0000 && 0x8000_0000_0000_0000 <= b.bits ==> !r,
        0x7FF0_0000_0000_0000 < a.bits < 0x8000_0000_0000_0000 || a.bits > 0xFFF0_0000_0000_0000
            ==> !r,
        0x7FF0_0000_0000_0000 < b.bits < 0x8000_0000_0000_0000 || b.bits > 0xFFF0_0000_0000_0000
            ==> !r,
{
    crate::scalar::law_order_is_that_of_patterns(a, b);
}

/// A position is what was worked out, but no lower than -1 and no higher than 1.
pub proof fn law_position(raw: Scalar, r: Position)
    requires
        call_ensures(Position::at, (raw,), r),
    ensures
        ({
            let (lo, hi) = (
                Scalar { bits: 0xBFF0_0000_0000_0000 },
                Scalar { bits: 0x3FF0_0000_0000_0000 },
            );
            &&& raw.below(lo) ==> r.val() == lo
            &&& hi.below(raw) ==> r.val() == hi
            &&& !raw.below(lo) && !hi.below(raw) ==> r.val() == raw
        }),
{
}

/// Things put in order have falling keys, equal keys in the order they came in, and
/// each thing once.
pub proof fn law_falling(keys: &Vec<Scalar>, r: Vec<usize>, i: int, j: int)
    requires
        call_ensures(order::falling, (keys,), r),
        0 <= i < j < r@.len(),
    ensures
        r@.len() == keys@.len(),
        r@[i] < keys@.len() && r@[j] < keys@.len() && r@[i] != r@[j],
        keys@[r@[i] as int].rank() >= keys@[r@[j] as int].rank(),
        keys@[r@[i] as int].rank() == keys@[r@[j] as int].rank() ==> r@[i] < r@[j],
{
    order::law_keys_fall(keys@, r@, i, j);
}

// ---------------------------------------------------------------------------
// Classes
// ---------------------------------------------------------------------------

/// Root's processes are the kernel's, and so is whoever goes by one of five names;
/// of the others, owners below 1000 are the system's and the rest are users'.
pub proof fn law_from_comm(comm: &str, uid: u32, r: ProcClass)
    requires
        call_ensures(ProcClass::from_comm, (comm, uid), r),
    ensures
        uid == 0 || "kworker"@.is_prefix_of(comm@) || "irq"@.is_prefix_of(comm@)
            || "rcu"@.is_prefix_of(comm@) || "migration"@.is_prefix_of(comm@)
            || "ksoftirq"@.is_prefix_of(comm@) ==> r == ProcClass::Kernel,
        uid != 0 && !"kworker"@.is_prefix_of(comm@) && !"irq"@.is_prefix_of(comm@)
            && !"rcu"@.is_prefix_of(comm@) && !"migration"@.is_prefix_of(comm@)
            && !"ksoftirq"@.is_prefix_of(comm@) ==> r == (if uid < 1000 {
            ProcClass::System
        } else {
            ProcClass::User
        }),
{
    class::law_classes(comm@, uid);
}

/// By the owner alone: root, below 1000, and the rest.
pub proof fn law_from_uid(uid: u32, r: ProcClass)
    requires
        call_ensures(ProcClass::from_uid, (uid,), r),
    ensures
        r == ProcClass::Kernel <==> uid == 0,
        r == ProcClass::System <==> 0 < uid < 1000,
        r == ProcClass::User <==> uid >= 1000,
{
}

/// What a class weighs: -0.30, -0.10 and 0.20.
pub proof fn law_x_priv(c: &ProcClass, r: Scalar)
    requires
        call_ensures(ProcClass::x_priv, (c,), r),
    ensures
        *c == ProcClass::Kernel ==> r.bits == 0xBFD3_3333_3333_3333,
        *c == ProcClass::System ==> r.bits == 0xBFB9_9999_9999_999A,
        *c == ProcClass::User ==> r.bits == 0x3FC9_9999_9999_999A,
{
}

// ---------------------------------------------------------------------------
// What the kernel shows
// ---------------------------------------------------------------------------

/// A process goes by digits.
pub proof fn law_is_pid_name(name: &str, r: bool)
    requires
        call_ensures(procfs::is_pid_name, (name,), r),
    ensures
        r <==> forall|i: int| 0 <= i < name@.len() ==> '0' <= #[trigger] name@[i] <= '9',
{
}

/// The name of a process is its text without the white space round it.
pub proof fn law_comm_name(raw: &str, a: Seq<char>, m: Seq<char>, b: Seq<char>, r: String)
    requires
        call_ensures(procfs::comm_name, (raw,), r),
        raw@ == a + m + b,
        text::blank(a),
        text::blank(b),
        m.len() > 0 ==> !text::is_white(m[0]) && !text::is_white(m.last()),
    ensures
        r@ == m,
{
    text::law_trimming_takes_the_ends(a, m, b);
}

/// The owner is the second word of the first line that starts with `Uid:`.
pub proof fn law_read_uid(
    status: &str,
    ls: Seq<Seq<char>>,
    gap: Seq<char>,
    uid: u32,
    tail: Seq<char>,
    rest: Seq<char>,
    r: Option<u32>,
)
    requires
        call_ensures(procfs::read_uid, (Some(status),), r),
        status@ == text::ended(ls) + ("Uid:"@ + (gap + text::digits_of(uid as nat) + tail) + seq![
            '\n',
        ] + rest),
        text::are_lines(ls),
        forall|i: int| 0 <= i < ls.len() ==> !"Uid:"@.is_prefix_of(#[trigger] ls[i]),
        gap.len() > 0,
        text::blank(gap),
        tail.len() > 0 ==> text::is_white(tail[0]),
        text::is_line("Uid:"@ + (gap + text::digits_of(uid as nat) + tail)),
        text::is_line("Uid:"@ + gap),
    ensures
        r == Some(uid),
{
    let word = text::digits_of(uid as nat);
    text::law_number_survives(uid as nat, u32::MAX as nat);
    assert forall|i: int| 0 <= i < word.len() implies !text::is_white(#[trigger] word[i]) by {
        assert(text::is_digit(word[i]));
    }
    procfs::law_owner_is_read(ls, gap, word, tail, rest);
}

/// Without a text, or without a line that starts with `Uid:`, there is no owner.
pub proof fn law_no_uid(status: Option<&str>, ls: Seq<Seq<char>>, r: Option<u32>)
    requires
        call_ensures(procfs::read_uid, (status,), r),
        status is None || (status->0@ == text::ended(ls) && text::are_lines(ls) && forall|i: int|
            0 <= i < ls.len() ==> !"Uid:"@.is_prefix_of(#[trigger] ls[i])),
    ensures
        r is None,
{
    if status is Some {
        text::law_written_lines_are_read(ls, Seq::empty());
        assert(text::ended(ls) + Seq::<char>::empty() =~= text::ended(ls));
        assert(ls + text::lines(Seq::<char>::empty()) =~= ls);
        text::law_first_line_is_found(ls, "Uid:"@, 0);
    }
}

/// The ticks are the sum of the 12th and the 13th word after the last closing
/// bracket, and depend on nothing else.
pub proof fn law_read_cpu_ticks(
    stat: Option<&str>,
    head: Seq<char>,
    ws: Seq<Seq<char>>,
    end: Seq<char>,
    r: u64,
)
    requires
        call_ensures(procfs::read_cpu_ticks, (stat,), r),
        stat is Some ==> {
            &&& stat->0@ == head + seq![')'] + (procfs::spaced(ws) + end)
            &&& ws.len() > 0
            &&& procfs::are_words(ws)
            &&& text::blank(end)
            &&& !(procfs::spaced(ws) + end).contains(')')
        },
    ensures
        stat is None ==> r == 0,
        stat is Some ==> r == procfs::number_at(ws, 11) + procfs::number_at(ws, 12),
{
    if stat is Some {
        procfs::law_ticks_are_two_words(head, ws, end);
    }
}

/// The ticks can be read if the two numbers add up to what fits a counter.
pub proof fn law_stat_is_sound(
    stat: &str,
    head: Seq<char>,
    ws: Seq<Seq<char>>,
    end: Seq<char>,
    r: bool,
)
    requires
        call_ensures(procfs::stat_is_sound, (stat,), r),
        stat@ == head + seq![')'] + (procfs::spaced(ws) + end),
        ws.len() > 0,
        procfs::are_words(ws),
        text::blank(end),
        !(procfs::spaced(ws) + end).contains(')'),
    ensures
        r <==> procfs::number_at(ws, 11) + procfs::number_at(ws, 12) <= 0xFFFF_FFFF_FFFF_FFFF,
{
    procfs::law_ticks_are_two_words(head, ws, end);
}

/// The read calls are the number in the first line that starts with `syscr: `.
pub proof fn law_read_syscr(
    io: &str,
    ls: Seq<Seq<char>>,
    value: Seq<char>,
    rest: Seq<char>,
    r: u64,
)
    requires
        call_ensures(procfs::read_syscr, (Some(io),), r),
        text::are_lines(ls),
        forall|i: int| 0 <= i < ls.len() ==> !"syscr: "@.is_prefix_of(#[trigger] ls[i]),
        text::is_line("syscr: "@ + value),
    ensures
        io@ == text::ended(ls) + ("syscr: "@ + value + seq!['\n'] + rest) ==> r == (
        match text::parse_unsigned(text::trim(value), 0xFFFF_FFFF_FFFF_FFFF) {
            Some(n) => n,
            None => 0,
        }),
        io@ == text::ended(ls) ==> r == 0,
{
    procfs::law_read_calls_are_read(ls, value, rest);
}

// ---------------------------------------------------------------------------
// Files
// ---------------------------------------------------------------------------

/// A file name has a character for each of the process name: letters, numbers, `-`
/// and `_` stay, and anything else becomes `_`.
pub proof fn law_sanitize_comm(comm: &str, r: String, i: int)
    requires
        call_ensures(score::sanitize_comm, (comm,), r),
        0 <= i < comm@.len(),
    ensures
        r@.len() == comm@.len(),
        score::alphanumeric(comm@[i]) || comm@[i] == '-' || comm@[i] == '_' ==> r@[i] == comm@[i],
        !score::alphanumeric(comm@[i]) && comm@[i] != '-' ==> r@[i] == '_',
        (comm@[i] as u32) < 128 ==> (score::alphanumeric(comm@[i]) <==> 'a' <= comm@[i] <= 'z'
            || 'A' <= comm@[i] <= 'Z' || '0' <= comm@[i] <= '9'),
{
}

/// A score lies in the directory of the scores, under the file name of the process.
pub proof fn law_score_path(comm: &str, r: String)
    requires
        call_ensures(score::score_path, (comm,), r),
    ensures
        r@ == "/run/ntvidia/scores"@ + seq!['/'] + score::sanitized(comm@),
{
}

/// The share that is read of a score is the one that was written into it.
pub proof fn law_score_round_trip(
    use_gpu: bool,
    x: &str,
    density: &str,
    gpu_ema: &str,
    sigma: &str,
    ts: u64,
    s: String,
    content: &str,
    r: Option<String>,
)
    requires
        call_ensures(score::score_text, (use_gpu, x, density, gpu_ema, sigma, ts), s),
        content@ == s@,
        call_ensures(score::read_ntvidia_gpu_ema, (Some(content),), r),
        !x@.contains('\n'),
        !density@.contains('\n'),
        !gpu_ema@.contains('\n'),
    ensures
        r is Some,
        r->0@ == text::trim(gpu_ema@),
{
    score::law_score_is_read_back(use_gpu, x@, density@, gpu_ema@, sigma@, ts as nat);
}

/// The share in a score is what stands in the first line that starts with
/// `gpu_ema=`; without a score or such a line there is none.
pub proof fn law_read_ntvidia_gpu_ema(
    content: Option<&str>,
    ls: Seq<Seq<char>>,
    value: Seq<char>,
    rest: Seq<char>,
    r: Option<String>,
)
    requires
        call_ensures(score::read_ntvidia_gpu_ema, (content,), r),
        text::are_lines(ls),
        forall|i: int| 0 <= i < ls.len() ==> !"gpu_ema="@.is_prefix_of(#[trigger] ls[i]),
        text::is_line("gpu_ema="@ + value),
    ensures
        content is None ==> r is None,
        content is Some && content->0@ == text::ended(ls) + ("gpu_ema="@ + value + seq!['\n']
            + rest) ==> r is Some && r->0@ == text::trim(value),
        content is Some && content->0@ == text::ended(ls) ==> r is None,
{
    score::law_share_is_found(ls, value, rest);
}

/// What the GPU scheduler writes into its file it reads out of it.
pub proof fn law_gpu_round_trip(rows: &Vec<GpuRow>, s: String, content: &str, back: Vec<GpuRow>)
    requires
        call_ensures(learned::gpu_file, (rows,), s),
        content@ == s@,
        call_ensures(learned::read_gpu_file, (content,), back),
        forall|i: int|
            0 <= i < rows@.len() ==> {
                &&& learned::storable((#[trigger] rows@[i]).comm@)
                &&& !rows@[i].ema@.contains(',')
                &&& !rows@[i].ema@.contains('\n')
            },
    ensures
        back@.len() == rows@.len(),
        forall|i: int|
            0 <= i < rows@.len() ==> (#[trigger] back@[i]).comm@ == text::trim(rows@[i].comm@)
                && back@[i].ema@ == text::trim(rows@[i].ema@) && back@[i].uid == rows@[i].uid,
{
    let f = learned::gpu_fields(rows@);
    assert forall|i: int| 0 <= i < f.len() implies {
        &&& learned::storable((#[trigger] f[i]).comm)
        &&& !f[i].ema.contains(',')
        &&& !f[i].ema.contains('\n')
    } by {
        assert(learned::storable(rows@[i].comm@));
    }
    learned::law_gpu_file_survives(f);
    let g = learned::gpu_fields(back@);
    assert(g == f.map_values(|r: GpuFields| learned::gpu_trimmed(r)));
    assert forall|i: int| 0 <= i < rows@.len() implies (#[trigger] back@[i]).comm@ == text::trim(
        rows@[i].comm@,
    ) && back@[i].ema@ == text::trim(rows@[i].ema@) && back@[i].uid == rows@[i].uid by {
        assert(g[i] == back@[i]@);
        assert(g[i] == learned::gpu_trimmed(f[i]));
    }
    assert(g.len() == back@.len());
}

/// What the CPU scheduler writes into its file it reads out of it.
pub proof fn law_cpu_round_trip(rows: &Vec<CpuRow>, s: String, content: &str, back: Vec<CpuRow>)
    requires
        call_ensures(learned::cpu_file, (rows,), s),
        content@ == s@,
        call_ensures(learned::read_cpu_file, (content,), back),
        forall|i: int|
            0 <= i < rows@.len() ==> {
                &&& learned::storable((#[trigger] rows@[i]).comm@)
                &&& !rows@[i].cpu@.contains('\n')
            },
    ensures
        back@.len() == rows@.len(),
        forall|i: int|
            0 <= i < rows@.len() ==> (#[trigger] back@[i]).comm@ == text::trim(rows@[i].comm@)
                && back@[i].cpu@ == text::trim(rows@[i].cpu@),
{
    let f = learned::cpu_fields(rows@);
    assert forall|i: int| 0 <= i < f.len() implies {
        &&& learned::storable((#[trigger] f[i]).comm)
        &&& !f[i].cpu.contains('\n')
    } by {
        assert(learned::storable(rows@[i].comm@));
    }
    learned::law_cpu_file_survives(f);
    let g = learned::cpu_fields(back@);
    assert(g == f.map_values(|r: CpuFields| learned::cpu_trimmed(r)));
    assert forall|i: int| 0 <= i < rows@.len() implies (#[trigger] back@[i]).comm@ == text::trim(
        rows@[i].comm@,
    ) && back@[i].cpu@ == text::trim(rows@[i].cpu@) by {
        assert(g[i] == back@[i]@);
        assert(g[i] == learned::cpu_trimmed(f[i]));
    }
    assert(g.len() == back@.len());
}

/// The GPU scheduler's file: a comment line, then name, share and owner of each row.
pub proof fn law_gpu_file(rows: &Vec<GpuRow>, s: String)
    requires
        call_ensures(learned::gpu_file, (rows,), s),
    ensures
        s@ == "# NTvidia learned — comm,gpu_rate_ema,uid\n"@ + text::ended(
            rows@.map_values(
                |r: GpuRow|
                    r.comm@ + seq![','] + r.ema@ + seq![','] + text::digits_of(r.uid as nat),
            ),
        ),
{
    let f = learned::gpu_fields(rows@);
    learned::law_gpu_file_has_a_line_each(f);
    assert(f.map_values(
        |r: GpuFields| r.comm + seq![','] + r.ema + seq![','] + text::digits_of(r.uid as nat),
    ) =~= rows@.map_values(
        |r: GpuRow| r.comm@ + seq![','] + r.ema@ + seq![','] + text::digits_of(r.uid as nat),
    ));
}

/// The CPU scheduler's file: a comment line, then name and share of each row.
pub proof fn law_cpu_file(rows: &Vec<CpuRow>, s: String)
    requires
        call_ensures(learned::cpu_file, (rows,), s),
    ensures
        s@ == "# TGD learned — comm,smooth_cpu\n"@ + text::ended(
            rows@.map_values(|r: CpuRow| r.comm@ + seq![','] + r.cpu@),
        ),
{
    let f = learned::cpu_fields(rows@);
    learned::law_cpu_file_has_a_line_each(f);
    assert(f.map_values(|r: CpuFields| r.comm + seq![','] + r.cpu) =~= rows@.map_values(
        |r: CpuRow| r.comm@ + seq![','] + r.cpu@,
    ));
}

// ---------------------------------------------------------------------------
// Time
// ---------------------------------------------------------------------------

/// The seconds to a point in time are counted from the start of 1970; before that
/// they are zero.
pub proof fn law_seconds_at(t: SystemTime, n: u64)
    requires
        call_ensures(clock::seconds_at, (t,), n),
    ensures
        clock::past_epoch(t) is None ==> n == 0,
        clock::past_epoch(t) is Some ==> n == clock::whole_seconds(clock::past_epoch(t)->0),
{
}

} // verus!
