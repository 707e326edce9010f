//! Reading what `nvidia-smi` prints.

use crate::scalar::Scalar;
use crate::text;
use vstd::prelude::*;

verus! {

/// The load of the GPU, and the processes that compute on it.
#[derive(Debug)]
pub struct GpuMetrics {
    pub util_pct: Scalar,
    pub mem_used_mib: Scalar,
    pub mem_total_mib: Scalar,
    pub compute_procs: Vec<(u32, String)>,
}

/// A process that computes on the GPU: its number and its name.
pub struct ComputeProc {
    pub pid: u32,
    pub name: Seq<char>,
}

pub open spec fn compute_views(v: Seq<(u32, String)>) -> Seq<ComputeProc> {
    v.map_values(|p: (u32, String)| ComputeProc { pid: p.0, name: p.1@ })
}

/// The last part of a path that is a name: empty parts and `.` do not count,
/// and a path that ends in `..` has none.
pub open spec fn last_name(parts: Seq<Seq<char>>) -> Seq<char>
    decreases parts.len(),
{
    if parts.len() == 0 {
        Seq::empty()
    } else if parts.last() == Seq::<char>::empty() || parts.last() == seq!['.'] {
        last_name(parts.drop_last())
    } else if parts.last() == seq!['.', '.'] {
        Seq::empty()
    } else {
        parts.last()
    }
}

/// The file name of a path.
pub open spec fn file_name(path: Seq<char>) -> Seq<char> {
    last_name(text::split(path, '/'))
}

/// The process in a line: a number, a comma and a path.
pub open spec fn compute_proc_in(line: Seq<char>) -> Option<ComputeProc> {
    let parts = text::split_at_most(line, ',', 2);
    if parts.len() == 2 && text::parse_unsigned(text::trim(parts[0]), u32::MAX as nat) is Some {
        Some(
            ComputeProc {
                pid: text::parse_unsigned(text::trim(parts[0]), u32::MAX as nat)->0 as u32,
                name: file_name(text::trim(parts[1])),
            },
        )
    } else {
        None
    }
}

/// The processes in some lines, in their order.
pub open spec fn compute_procs_in(ls: Seq<Seq<char>>) -> Seq<ComputeProc>
    decreases ls.len(),
{
    if ls.len() == 0 {
        Seq::empty()
    } else {
        let front = compute_procs_in(ls.drop_last());
        match compute_proc_in(ls.last()) {
            Some(p) => front.push(p),
            None => front,
        }
    }
}

/// The fields of the load line.
pub open spec fn load_fields(out: Seq<char>) -> Seq<Seq<char>> {
    text::split(text::trim(out), ',')
}

/// The file name of a path.
fn name_of<'a>(path: &'a [char]) -> (r: Vec<char>)
    ensures
        r@ == file_name(path@),
{
    let parts = text::split_list(path, '/');
    let ghost all = text::split(path@, '/');
    let mut n: usize = parts.len();
    assert(all.len() == parts@.len());
    assert(all.take(n as int) =~= all);
    while n > 0
        invariant
            n <= parts@.len(),
            text::views(parts@) == all,
            all == text::split(path@, '/'),
            last_name(all) == last_name(all.take(n as int)),
        decreases n,
    {
        let part = parts[n - 1];
        assert(all.take(n as int).last() == part@);
        assert(all.take(n as int).drop_last() =~= all.take(n - 1));
        if part.len() == 0 || (part.len() == 1 && part[0] == '.') {
            assert(part@ =~= Seq::<char>::empty() || part@ =~= seq!['.']);
            n = n - 1;
        } else {
            assert(part@ != Seq::<char>::empty() && part@ != seq!['.']) by {
                assert(seq!['.'][0] == '.');
            }
            if part.len() == 2 && part[0] == '.' && part[1] == '.' {
                assert(part@ =~= seq!['.', '.']);
                return Vec::new();
            }
            assert(part@ != seq!['.', '.']) by {
                assert(seq!['.', '.'][0] == '.' && seq!['.', '.'][1] == '.');
            }
            return vstd::slice::slice_to_vec(part);
        }
    }
    Vec::new()
}

/// The three numbers of the load line, as text: the load of the GPU in per
/// cent, the memory in use and the memory that there is.
pub fn smi_fields(out: &str) -> (r: Option<(String, String, String)>)
    ensures
        r is Some <==> load_fields(out@).len() >= 3,
        r matches Some(t) ==> {
            &&& t.0@ == text::trim(load_fields(out@)[0])
            &&& t.1@ == text::trim(load_fields(out@)[1])
            &&& t.2@ == text::trim(load_fields(out@)[2])
        },
{
    let cs = text::chars_of(out);
    let line = text::trimmed(cs.as_slice());
    let parts = text::split_list(line, ',');
    let ghost pv = text::views(parts@);
    assert(pv.len() == parts@.len());
    if parts.len() < 3 {
        return None;
    }
    assert(pv[0] == parts@[0]@ && pv[1] == parts@[1]@ && pv[2] == parts@[2]@);
    Some(
        (
            text::string_of(text::trimmed(parts[0])),
            text::string_of(text::trimmed(parts[1])),
            text::string_of(text::trimmed(parts[2])),
        ),
    )
}

/// The processes that compute on the GPU.
pub fn compute_procs(out: &str) -> (r: Vec<(u32, String)>)
    ensures
        compute_views(r@) == compute_procs_in(text::lines(out@)),
{
    let cs = text::chars_of(out);
    let ls = text::line_list(cs.as_slice());
    let ghost all = text::lines(out@);
    let mut procs: Vec<(u32, String)> = Vec::new();
    let mut i: usize = 0;
    assert(all.take(0) =~= Seq::<Seq<char>>::empty());
    assert(compute_views(procs@) =~= Seq::<ComputeProc>::empty());
    while i < ls.len()
        invariant
            i <= ls@.len(),
            text::views(ls@) == all,
            compute_views(procs@) == compute_procs_in(all.take(i as int)),
        decreases ls.len() - i,
    {
        let ghost done = compute_views(procs@);
        assert(all[i as int] == ls@[i as int]@);
        assert(all.take(i + 1).drop_last() =~= all.take(i as int));
        assert(all.take(i + 1).last() == all[i as int]);
        let parts = text::field_list(ls[i], ',', 2);
        let ghost pv = text::views(parts@);
        assert(pv.len() == parts@.len());
        if parts.len() == 2 {
            assert(pv[0] == parts@[0]@ && pv[1] == parts@[1]@);
            match text::parse_number(text::trimmed(parts[0]), u32::MAX as u64) {
                Some(pid) => {
                    let path = text::trimmed(parts[1]);
                    let name = name_of(path);
                    let p = (pid as u32, text::string_of(name.as_slice()));
                    procs.push(p);
                    assert(compute_views(procs@) =~= done.push(
                        ComputeProc { pid: p.0, name: p.1@ },
                    ));
                },
                None => {},
            }
        }
        i = i + 1;
    }
    assert(all.take(i as int) =~= all);
    procs
}

/// What the scheduler knows before it asked.
impl Default for GpuMetrics {
    fn default() -> (r: Self)
        ensures
            r.util_pct.bits == 0,
            r.mem_used_mib.bits == 0,
            r.mem_total_mib.bits == 0,
            r.compute_procs@.len() == 0,
    {
        GpuMetrics {
            util_pct: Scalar { bits: 0 },
            mem_used_mib: Scalar { bits: 0 },
            mem_total_mib: Scalar { bits: 0 },
            compute_procs: Vec::new(),
        }
    }
}

/// What a round of questions gives: nothing, unless all three numbers could be
/// read and the processes were told.
pub fn query_nvidia_smi(
    util: Option<Scalar>,
    used: Option<Scalar>,
    total: Option<Scalar>,
    apps: Option<&str>,
) -> (r: Option<GpuMetrics>)
    ensures
        r is Some <==> util is Some && used is Some && total is Some && apps is Some,
        r matches Some(m) ==> {
            &&& m.util_pct == util->0
            &&& m.mem_used_mib == used->0
            &&& m.mem_total_mib == total->0
            &&& compute_views(m.compute_procs@) == compute_procs_in(text::lines(apps->0@))
        },
{
    match (util, used, total, apps) {
        (Some(util_pct), Some(mem_used_mib), Some(mem_total_mib), Some(out)) => Some(
            GpuMetrics {
                util_pct,
                mem_used_mib,
                mem_total_mib,
                compute_procs: compute_procs(out),
            },
        ),
        _ => None,
    }
}

// ---------------------------------------------------------------------------
// Laws
// ---------------------------------------------------------------------------

/// What comes after the last separator is the last field.
proof fn lemma_last_field(d: Seq<char>, sep: char, n: Seq<char>)
    requires
        !n.contains(sep),
    ensures
        text::split(d + seq![sep] + n, sep) == text::split(d, sep).push(n),
    decreases d.len(),
{
    text::lemma_before(d, sep);
    let k = text::before(d, sep) as int;
    text::law_fields_end_in_separators(n, sep, n, 2);
    if k == d.len() {
        assert(!d.contains(sep));
        text::law_fields_end_in_separators(d, sep, n, 2);
        assert(seq![d] + seq![n] =~= seq![d].push(n));
    } else {
        let (a, b) = (d.take(k), d.skip(k + 1));
        assert(!a.contains(sep));
        assert(d =~= a + seq![sep] + b);
        lemma_last_field(b, sep, n);
        text::law_fields_end_in_separators(a, sep, b, 2);
        text::law_fields_end_in_separators(a, sep, b + seq![sep] + n, 2);
        assert(d + seq![sep] + n =~= a + seq![sep] + (b + seq![sep] + n));
        assert(seq![a] + text::split(b, sep).push(n) =~= (seq![a] + text::split(b, sep)).push(n));
    }
}

/// The file name of a path is what comes after its last slash, whatever comes
/// before that. A slash at the end, and a part that is a single dot, do not count;
/// a path that ends in two dots has no file name.
pub proof fn law_file_name_is_the_last_part(d: Seq<char>, n: Seq<char>)
    requires
        n.len() > 0,
        !n.contains('/'),
        n != seq!['.'],
        n != seq!['.', '.'],
    ensures
        file_name(n) == n,
        file_name(d + seq!['/'] + n) == n,
        file_name(d + seq!['/']) == file_name(d),
        file_name(d + seq!['/'] + seq!['.']) == file_name(d),
        file_name(d + seq!['/'] + seq!['.', '.']).len() == 0,
        file_name(Seq::empty()).len() == 0,
        file_name(seq!['.', '.']).len() == 0,
        file_name(seq!['.']).len() == 0,
{
    let none = Seq::<char>::empty();
    let (one, two) = (seq!['.'], seq!['.', '.']);
    text::law_fields_end_in_separators(n, '/', n, 2);
    text::law_fields_end_in_separators(none, '/', none, 2);
    text::law_fields_end_in_separators(one, '/', one, 2);
    text::law_fields_end_in_separators(two, '/', two, 2);
    lemma_last_field(d, '/', n);
    lemma_last_field(d, '/', none);
    lemma_last_field(d, '/', one);
    lemma_last_field(d, '/', two);
    assert(d + seq!['/'] + none =~= d + seq!['/']);
    let parts = text::split(d, '/');
    assert(parts.push(none).drop_last() =~= parts);
    assert(parts.push(one).drop_last() =~= parts);
    assert(one.len() == 1 && two.len() == 2);
    assert(seq![one].drop_last() =~= Seq::<Seq<char>>::empty());
    assert(seq![none].drop_last() =~= Seq::<Seq<char>>::empty());
    assert(last_name(Seq::<Seq<char>>::empty()).len() == 0);
}

/// A line that is a number, a comma and a path tells of a process that goes by the
/// file name of the path, whatever characters the path holds: blanks and commas
/// too. White space round the number and round the path does not count.
pub proof fn law_computing_process_is_read(
    pid: u32,
    a: Seq<char>,
    b: Seq<char>,
    gap: Seq<char>,
    path: Seq<char>,
    end: Seq<char>,
)
    requires
        text::blank(a),
        text::blank(b),
        text::blank(gap),
        text::blank(end),
        path.len() > 0 ==> !text::is_white(path[0]) && !text::is_white(path.last()),
    ensures
        compute_proc_in(
            a + text::digits_of(pid as nat) + b + seq![','] + (gap + path + end),
        ) == Some(ComputeProc { pid, name: file_name(path) }),
{
    let digits = text::digits_of(pid as nat);
    let first = a + digits + b;
    let tail = gap + path + end;
    text::law_number_survives(pid as nat, u32::MAX as nat);
    assert forall|i: int| 0 <= i < digits.len() implies !text::is_white(#[trigger] digits[i])
        && digits[i] != ',' by {
        assert(text::is_digit(digits[i]));
    }
    assert(!first.contains(',')) by {
        if first.contains(',') {
            let i = choose|i: int| 0 <= i < first.len() && first[i] == ',';
            if i < a.len() {
                assert(text::is_white(a[i]));
            } else if i < a.len() + digits.len() {
                assert(first[i] == digits[i - a.len()]);
            } else {
                assert(text::is_white(b[i - a.len() - digits.len()]));
            }
        }
    }
    text::law_fields_end_in_separators(first, ',', tail, 2);
    assert(text::split_at_most(first + seq![','] + tail, ',', 2) =~= seq![first, tail]);
    text::law_trimming_takes_the_ends(a, digits, b);
    text::law_trimming_takes_the_ends(gap, path, end);
}

/// A process of a file under any directory goes by the name of the file.
pub proof fn law_process_goes_by_its_file(pid: u32, d: Seq<char>, n: Seq<char>)
    requires
        n.len() > 0,
        !n.contains('/'),
        n != seq!['.'],
        n != seq!['.', '.'],
        !text::is_white(n.last()),
        d.len() > 0 ==> !text::is_white(d[0]),
    ensures
        compute_proc_in(
            text::digits_of(pid as nat) + seq![',', ' '] + (d + seq!['/'] + n),
        ) == Some(ComputeProc { pid, name: n }),
{
    let none = Seq::<char>::empty();
    let path = d + seq!['/'] + n;
    let digits = text::digits_of(pid as nat);
    assert(path.last() == n.last());
    assert(path[0] == if d.len() > 0 {
        d[0]
    } else {
        '/'
    });
    law_file_name_is_the_last_part(d, n);
    law_computing_process_is_read(pid, none, none, seq![' '], path, none);
    assert(none + digits + none + seq![','] + (seq![' '] + path + none) =~= digits + seq![',', ' ']
        + path);
}

/// A line without a comma tells of no process, nor does one whose first field is
/// no number.
pub proof fn law_other_lines_tell_of_no_process(a: Seq<char>, b: Seq<char>)
    requires
        !a.contains(','),
    ensures
        compute_proc_in(a) is None,
        text::parse_unsigned(text::trim(a), 4294967295) is None ==> compute_proc_in(
            a + seq![','] + b,
        ) is None,
{
    text::law_fields_end_in_separators(a, ',', b, 2);
    assert(text::split_at_most(a + seq![','] + b, ',', 2) =~= seq![a, b]);
}

/// Every line that tells of a process gives it, in the order of the lines.
pub proof fn law_processes_come_line_by_line(ls: Seq<Seq<char>>)
    ensures
        compute_procs_in(ls) == ls.filter_map(|l: Seq<char>| compute_proc_in(l)),
    decreases ls.len(),
{
    if ls.len() > 0 {
        law_processes_come_line_by_line(ls.drop_last());
        let f = |l: Seq<char>| compute_proc_in(l);
        match compute_proc_in(ls.last()) {
            Some(p) => {
                assert(compute_procs_in(ls) =~= ls.drop_last().filter_map(f) + seq![p]);
            },
            None => {},
        }
    }
}

/// The fields of the load line stand between commas, once the white space round
/// the line is gone.
pub proof fn law_load_stands_between_commas(
    a: Seq<char>,
    x: Seq<char>,
    y: Seq<char>,
    z: Seq<char>,
    b: Seq<char>,
)
    requires
        text::blank(a),
        text::blank(b),
        !x.contains(','),
        !y.contains(','),
        !z.contains(','),
        x.len() > 0 ==> !text::is_white(x[0]),
        z.len() > 0 ==> !text::is_white(z.last()),
    ensures
        load_fields(a + (x + seq![','] + (y + seq![','] + z)) + b) == seq![x, y, z],
        x.len() > 0 && y.len() > 0 && !text::is_white(y.last()) ==> load_fields(
            a + (x + seq![','] + y) + b,
        ) == seq![x, y],
{
    let tail = y + seq![','] + z;
    let m = x + seq![','] + tail;
    assert(m[0] == if x.len() > 0 {
        x[0]
    } else {
        ','
    });
    assert(m.last() == if z.len() > 0 {
        z.last()
    } else {
        ','
    });
    text::law_trimming_takes_the_ends(a, m, b);
    text::law_fields_end_in_separators(x, ',', tail, 2);
    text::law_fields_end_in_separators(y, ',', z, 2);
    text::law_fields_end_in_separators(z, ',', z, 2);
    assert(seq![x] + (seq![y] + seq![z]) =~= seq![x, y, z]);
    if x.len() > 0 && y.len() > 0 && !text::is_white(y.last()) {
        let k = x + seq![','] + y;
        assert(k[0] == x[0] && k.last() == y.last());
        text::law_trimming_takes_the_ends(a, k, b);
        text::law_fields_end_in_separators(x, ',', y, 2);
        text::law_fields_end_in_separators(y, ',', y, 2);
        assert(seq![x] + seq![y] =~= seq![x, y]);
    }
}

} // verus!
