//! The files in which the schedulers keep what they learned between two runs:
//! a comment line, then one line for each process name.

use crate::procfs::DEFAULT_UID;
use crate::text;
use vstd::prelude::*;

verus! {

/// The first line of the GPU scheduler's file.
pub const GPU_HEADER: &'static str = "# NTvidia learned — comm,gpu_rate_ema,uid\n";

/// The first line of the CPU scheduler's file.
pub const CPU_HEADER: &'static str = "# TGD learned — comm,smooth_cpu\n";

/// What the GPU scheduler keeps of a process name. The learned share is text.
#[derive(Debug)]
pub struct GpuRow {
    pub comm: String,
    pub ema: String,
    pub uid: u32,
}

/// What the CPU scheduler keeps of a process name. The learned share is text.
#[derive(Debug)]
pub struct CpuRow {
    pub comm: String,
    pub cpu: String,
}

/// A row of the GPU scheduler, by what it holds.
#[verifier::ext_equal]
pub struct GpuFields {
    pub comm: Seq<char>,
    pub ema: Seq<char>,
    pub uid: u32,
}

/// A row of the CPU scheduler, by what it holds.
#[verifier::ext_equal]
pub struct CpuFields {
    pub comm: Seq<char>,
    pub cpu: Seq<char>,
}

impl View for GpuRow {
    type V = GpuFields;

    open spec fn view(&self) -> GpuFields {
        GpuFields { comm: self.comm@, ema: self.ema@, uid: self.uid }
    }
}

impl View for CpuRow {
    type V = CpuFields;

    open spec fn view(&self) -> CpuFields {
        CpuFields { comm: self.comm@, cpu: self.cpu@ }
    }
}

pub open spec fn gpu_fields(rows: Seq<GpuRow>) -> Seq<GpuFields> {
    rows.map_values(|r: GpuRow| r@)
}

pub open spec fn cpu_fields(rows: Seq<CpuRow>) -> Seq<CpuFields> {
    rows.map_values(|r: CpuRow| r@)
}

/// The line of a row.
pub open spec fn gpu_line(r: GpuFields) -> Seq<char> {
    r.comm + seq![','] + (r.ema + seq![','] + text::digits_of(r.uid as nat))
}

/// The line of a row.
pub open spec fn cpu_line(r: CpuFields) -> Seq<char> {
    r.comm + seq![','] + r.cpu
}

/// The lines of some rows, each with its line feed.
pub open spec fn gpu_body(rows: Seq<GpuFields>) -> Seq<char>
    decreases rows.len(),
{
    if rows.len() == 0 {
        Seq::empty()
    } else {
        gpu_line(rows[0]) + seq!['\n'] + gpu_body(rows.drop_first())
    }
}

/// The lines of some rows, each with its line feed.
pub open spec fn cpu_body(rows: Seq<CpuFields>) -> Seq<char>
    decreases rows.len(),
{
    if rows.len() == 0 {
        Seq::empty()
    } else {
        cpu_line(rows[0]) + seq!['\n'] + cpu_body(rows.drop_first())
    }
}

/// Whether a line says nothing: it is empty or a comment.
pub open spec fn silent(line: Seq<char>) -> bool {
    line.len() == 0 || line[0] == '#'
}

/// The row in a line: a name, a share and, if it can be read, an owner.
pub open spec fn gpu_row_in(line: Seq<char>) -> Option<GpuFields> {
    let parts = text::split_at_most(line, ',', 3);
    if silent(line) || parts.len() < 2 {
        None
    } else {
        Some(
            GpuFields {
                comm: text::trim(parts[0]),
                ema: text::trim(parts[1]),
                uid: uid_field(parts),
            },
        )
    }
}

/// The owner in the third field of a line.
pub open spec fn uid_field(parts: Seq<Seq<char>>) -> u32 {
    if parts.len() > 2 && text::parse_unsigned(text::trim(parts[2]), u32::MAX as nat) is Some {
        text::parse_unsigned(text::trim(parts[2]), u32::MAX as nat)->0 as u32
    } else {
        DEFAULT_UID
    }
}

/// The row in a line: a name and a share.
pub open spec fn cpu_row_in(line: Seq<char>) -> Option<CpuFields> {
    let parts = text::split_at_most(line, ',', 2);
    if silent(line) || parts.len() < 2 {
        None
    } else {
        Some(CpuFields { comm: text::trim(parts[0]), cpu: text::trim(parts[1]) })
    }
}

/// The rows in some lines, in their order.
pub open spec fn gpu_rows_in(ls: Seq<Seq<char>>) -> Seq<GpuFields>
    decreases ls.len(),
{
    if ls.len() == 0 {
        Seq::empty()
    } else {
        let rest = gpu_rows_in(ls.drop_first());
        match gpu_row_in(ls[0]) {
            Some(r) => seq![r] + rest,
            None => rest,
        }
    }
}

/// The rows in some lines, in their order.
pub open spec fn cpu_rows_in(ls: Seq<Seq<char>>) -> Seq<CpuFields>
    decreases ls.len(),
{
    if ls.len() == 0 {
        Seq::empty()
    } else {
        let rest = cpu_rows_in(ls.drop_first());
        match cpu_row_in(ls[0]) {
            Some(r) => seq![r] + rest,
            None => rest,
        }
    }
}

// ---------------------------------------------------------------------------
// Writing
// ---------------------------------------------------------------------------

/// The GPU scheduler's file for some rows.
pub fn gpu_file(rows: &Vec<GpuRow>) -> (r: String)
    ensures
        r@ == GPU_HEADER@ + gpu_body(gpu_fields(rows@)),
{
    let ghost all = gpu_fields(rows@);
    let mut out = String::new();
    out.append(GPU_HEADER);
    let mut i: usize = 0;
    assert(all.skip(0) =~= all);
    assert(out@ =~= GPU_HEADER@);
    while i < rows.len()
        invariant
            i <= rows@.len(),
            all == gpu_fields(rows@),
            out@ + gpu_body(all.skip(i as int)) == GPU_HEADER@ + gpu_body(all),
        decreases rows.len() - i,
    {
        let ghost was = out@;
        let row = &rows[i];
        out.append(row.comm.as_str());
        out.push(',');
        out.append(row.ema.as_str());
        out.push(',');
        text::push_number(&mut out, row.uid as u64);
        out.push('\n');
        proof {
            let rest = all.skip(i as int);
            assert(rest[0] == row@);
            assert(rest.drop_first() =~= all.skip(i + 1));
            assert(out@ =~= was + (gpu_line(row@) + seq!['\n']));
            assert(was + gpu_body(rest) =~= out@ + gpu_body(all.skip(i + 1)));
        }
        i = i + 1;
    }
    assert(all.skip(i as int) =~= Seq::<GpuFields>::empty());
    assert(out@ + gpu_body(all.skip(i as int)) =~= out@);
    out
}

/// The CPU scheduler's file for some rows.
pub fn cpu_file(rows: &Vec<CpuRow>) -> (r: String)
    ensures
        r@ == CPU_HEADER@ + cpu_body(cpu_fields(rows@)),
{
    let ghost all = cpu_fields(rows@);
    let mut out = String::new();
    out.append(CPU_HEADER);
    let mut i: usize = 0;
    assert(all.skip(0) =~= all);
    assert(out@ =~= CPU_HEADER@);
    while i < rows.len()
        invariant
            i <= rows@.len(),
            all == cpu_fields(rows@),
            out@ + cpu_body(all.skip(i as int)) == CPU_HEADER@ + cpu_body(all),
        decreases rows.len() - i,
    {
        let ghost was = out@;
        let row = &rows[i];
        out.append(row.comm.as_str());
        out.push(',');
        out.append(row.cpu.as_str());
        out.push('\n');
        proof {
            let rest = all.skip(i as int);
            assert(rest[0] == row@);
            assert(rest.drop_first() =~= all.skip(i + 1));
            assert(out@ =~= was + (cpu_line(row@) + seq!['\n']));
            assert(was + cpu_body(rest) =~= out@ + cpu_body(all.skip(i + 1)));
        }
        i = i + 1;
    }
    assert(all.skip(i as int) =~= Seq::<CpuFields>::empty());
    assert(out@ + cpu_body(all.skip(i as int)) =~= out@);
    out
}

// ---------------------------------------------------------------------------
// Reading
// ---------------------------------------------------------------------------

/// The fields of a line that says something.
fn line_fields<'a>(line: &'a [char], limit: usize) -> (r: Option<Vec<&'a [char]>>)
    requires
        limit >= 1,
    ensures
        r is Some <==> !silent(line@) && text::split_at_most(line@, ',', limit as nat).len() >= 2,
        r matches Some(v) ==> text::views(v@) == text::split_at_most(line@, ',', limit as nat),
{
    if line.len() == 0 || line[0] == '#' {
        return None;
    }
    let parts = text::field_list(line, ',', limit);
    assert(text::views(parts@).len() == parts@.len());
    if parts.len() < 2 {
        None
    } else {
        Some(parts)
    }
}

/// Reads the GPU scheduler's file: the rows in its lines, in their order.
pub fn read_gpu_file(content: &str) -> (r: Vec<GpuRow>)
    ensures
        gpu_fields(r@) == gpu_rows_in(text::lines(content@)),
{
    let cs = text::chars_of(content);
    let ls = text::line_list(cs.as_slice());
    let ghost all = text::lines(content@);
    let mut out: Vec<GpuRow> = Vec::new();
    let mut i: usize = 0;
    assert(all.skip(0) =~= all);
    assert(gpu_fields(out@) + gpu_rows_in(all) =~= gpu_rows_in(all));
    while i < ls.len()
        invariant
            i <= ls@.len(),
            text::views(ls@) == all,
            gpu_fields(out@) + gpu_rows_in(all.skip(i as int)) == gpu_rows_in(all),
        decreases ls.len() - i,
    {
        let ghost done = gpu_fields(out@);
        let ghost rest = all.skip(i as int);
        assert(rest[0] == ls@[i as int]@);
        assert(rest.drop_first() =~= all.skip(i + 1));
        match line_fields(ls[i], 3) {
            None => {},
            Some(parts) => {
                let ghost pv = text::views(parts@);
                assert(pv.len() == parts@.len());
                assert(pv[0] == parts@[0]@ && pv[1] == parts@[1]@);
                let uid: u32 = if parts.len() > 2 {
                    assert(pv[2] == parts@[2]@);
                    match text::parse_number(text::trimmed(parts[2]), u32::MAX as u64) {
                        Some(n) => n as u32,
                        None => DEFAULT_UID,
                    }
                } else {
                    DEFAULT_UID
                };
                let row = GpuRow {
                    comm: text::string_of(text::trimmed(parts[0])),
                    ema: text::string_of(text::trimmed(parts[1])),
                    uid,
                };
                assert(gpu_row_in(rest[0]) == Some(row@));
                out.push(row);
                assert(gpu_fields(out@) =~= done.push(row@));
                assert(done.push(row@) + gpu_rows_in(all.skip(i + 1)) =~= done + (seq![row@]
                    + gpu_rows_in(all.skip(i + 1))));
            },
        }
        i = i + 1;
    }
    assert(all.skip(i as int) =~= Seq::<Seq<char>>::empty());
    assert(gpu_fields(out@) + gpu_rows_in(all.skip(i as int)) =~= gpu_fields(out@));
    out
}

/// Reads the CPU scheduler's file: the rows in its lines, in their order.
pub fn read_cpu_file(content: &str) -> (r: Vec<CpuRow>)
    ensures
        cpu_fields(r@) == cpu_rows_in(text::lines(content@)),
{
    let cs = text::chars_of(content);
    let ls = text::line_list(cs.as_slice());
    let ghost all = text::lines(content@);
    let mut out: Vec<CpuRow> = Vec::new();
    let mut i: usize = 0;
    assert(all.skip(0) =~= all);
    assert(cpu_fields(out@) + cpu_rows_in(all) =~= cpu_rows_in(all));
    while i < ls.len()
        invariant
            i <= ls@.len(),
            text::views(ls@) == all,
            cpu_fields(out@) + cpu_rows_in(all.skip(i as int)) == cpu_rows_in(all),
        decreases ls.len() - i,
    {
        let ghost done = cpu_fields(out@);
        let ghost rest = all.skip(i as int);
        assert(rest[0] == ls@[i as int]@);
        assert(rest.drop_first() =~= all.skip(i + 1));
        match line_fields(ls[i], 2) {
            None => {},
            Some(parts) => {
                let ghost pv = text::views(parts@);
                assert(pv.len() == parts@.len());
                assert(pv[0] == parts@[0]@ && pv[1] == parts@[1]@);
                let row = CpuRow {
                    comm: text::string_of(text::trimmed(parts[0])),
                    cpu: text::string_of(text::trimmed(parts[1])),
                };
                assert(cpu_row_in(rest[0]) == Some(row@));
                out.push(row);
                assert(cpu_fields(out@) =~= done.push(row@));
                assert(done.push(row@) + cpu_rows_in(all.skip(i + 1)) =~= done + (seq![row@]
                    + cpu_rows_in(all.skip(i + 1))));
            },
        }
        i = i + 1;
    }
    assert(all.skip(i as int) =~= Seq::<Seq<char>>::empty());
    assert(cpu_fields(out@) + cpu_rows_in(all.skip(i as int)) =~= cpu_fields(out@));
    out
}

// ---------------------------------------------------------------------------
// What is read is what was written
// ---------------------------------------------------------------------------

/// Whether a name keeps its meaning in such a file: it holds no comma and no
/// line feed and does not start like a comment.
pub open spec fn storable(comm: Seq<char>) -> bool {
    &&& !comm.contains(',')
    &&& !comm.contains('\n')
    &&& comm.len() > 0 ==> comm[0] != '#'
}

/// A row as it comes back: the white space round its texts is gone.
pub open spec fn gpu_trimmed(r: GpuFields) -> GpuFields {
    GpuFields { comm: text::trim(r.comm), ema: text::trim(r.ema), uid: r.uid }
}

/// A row as it comes back: the white space round its texts is gone.
pub open spec fn cpu_trimmed(r: CpuFields) -> CpuFields {
    CpuFields { comm: text::trim(r.comm), cpu: text::trim(r.cpu) }
}

proof fn lemma_absent(a: Seq<char>, b: Seq<char>, c: char)
    requires
        !a.contains(c),
        !b.contains(c),
    ensures
        !(a + b).contains(c),
{
    let s = a + b;
    if s.contains(c) {
        let i = choose|i: int| 0 <= i < s.len() && s[i] == c;
        if i < a.len() {
            assert(a[i] == c);
        } else {
            assert(b[i - a.len()] == c);
        }
    }
}

/// A field that holds no separator is cut off at the separator behind it.
proof fn lemma_first_field(a: Seq<char>, b: Seq<char>, n: nat)
    requires
        !a.contains(','),
        n > 1,
    ensures
        text::split_at_most(a + seq![','] + b, ',', n) == seq![a] + text::split_at_most(
            b,
            ',',
            (n - 1) as nat,
        ),
{
    let s = a + seq![','] + b;
    assert forall|i: int| 0 <= i < a.len() implies s[i] != ',' by {
        assert(s[i] == a[i]);
        assert(a.contains(a[i]));
    }
    text::lemma_before_is(s, ',', a.len() as int);
    assert(s.take(a.len() as int) =~= a);
    assert(s.skip(a.len() as int + 1) =~= b);
}

proof fn lemma_gpu_line(r: GpuFields)
    requires
        storable(r.comm),
        !r.ema.contains(','),
        !r.ema.contains('\n'),
    ensures
        !gpu_line(r).contains('\n'),
        text::strip_cr(gpu_line(r)) == gpu_line(r),
        gpu_row_in(gpu_line(r)) == Some(gpu_trimmed(r)),
{
    let digits = text::digits_of(r.uid as nat);
    text::law_number_survives(r.uid as nat, u32::MAX as nat);
    assert forall|i: int| 0 <= i < digits.len() implies digits[i] != '\n' && digits[i] != '\r'
        && digits[i] != ',' && !text::is_white(digits[i]) by {
        assert(text::is_digit(digits[i]));
    }
    assert(!digits.contains('\n') && !digits.contains(','));
    let tail = r.ema + seq![','] + digits;
    let line = gpu_line(r);
    assert(!line.contains('\n')) by {
        assert(!seq![','].contains('\n'));
        lemma_absent(r.ema, seq![','], '\n');
        lemma_absent(r.ema + seq![','], digits, '\n');
        lemma_absent(r.comm, seq![','], '\n');
        lemma_absent(r.comm + seq![','], tail, '\n');
    }
    assert(line.last() == digits.last());
    lemma_first_field(r.comm, tail, 3);
    lemma_first_field(r.ema, digits, 2);
    let parts = text::split_at_most(line, ',', 3);
    assert(text::split_at_most(digits, ',', 1) =~= seq![digits]);
    assert(parts =~= seq![r.comm, r.ema, digits]);
    assert(text::trim(digits) == digits);
    assert(line.len() > 0 && line[0] != '#') by {
        if r.comm.len() == 0 {
            assert(line[0] == ',');
        } else {
            assert(line[0] == r.comm[0]);
        }
    }
}

proof fn lemma_gpu_body(rows: Seq<GpuFields>)
    requires
        forall|i: int|
            0 <= i < rows.len() ==> {
                &&& storable((#[trigger] rows[i]).comm)
                &&& !rows[i].ema.contains(',')
                &&& !rows[i].ema.contains('\n')
            },
    ensures
        gpu_rows_in(text::lines(gpu_body(rows))) == rows.map_values(|r: GpuFields| gpu_trimmed(r)),
    decreases rows.len(),
{
    let back = rows.map_values(|r: GpuFields| gpu_trimmed(r));
    if rows.len() > 0 {
        let rest = rows.drop_first();
        assert forall|i: int| 0 <= i < rest.len() implies {
            &&& storable((#[trigger] rest[i]).comm)
            &&& !rest[i].ema.contains(',')
            &&& !rest[i].ema.contains('\n')
        } by {
            assert(rest[i] == rows[i + 1]);
        }
        lemma_gpu_body(rest);
        lemma_gpu_line(rows[0]);
        let line = gpu_line(rows[0]);
        text::lemma_first_line(line, gpu_body(rest));
        let ls = seq![line] + text::lines(gpu_body(rest));
        assert(ls.drop_first() =~= text::lines(gpu_body(rest)));
        assert(back =~= seq![gpu_trimmed(rows[0])] + rest.map_values(
            |r: GpuFields| gpu_trimmed(r),
        ));
    } else {
        assert(back =~= Seq::<GpuFields>::empty());
    }
}

/// What the GPU scheduler saved it finds again in its next run: every row, in
/// the order in which it was written. Names with a comma, with a line feed or
/// with a `#` in front are the ones that do not come back.
pub proof fn law_gpu_file_survives(rows: Seq<GpuFields>)
    requires
        forall|i: int|
            0 <= i < rows.len() ==> {
                &&& storable((#[trigger] rows[i]).comm)
                &&& !rows[i].ema.contains(',')
                &&& !rows[i].ema.contains('\n')
            },
    ensures
        gpu_rows_in(text::lines(GPU_HEADER@ + gpu_body(rows))) == rows.map_values(
            |r: GpuFields| gpu_trimmed(r),
        ),
{
    lemma_gpu_body(rows);
    reveal_strlit("# NTvidia learned — comm,gpu_rate_ema,uid\n");
    let n = GPU_HEADER@.len() - 1;
    let comment = GPU_HEADER@.take(n);
    assert(GPU_HEADER@ =~= comment + seq!['\n']);
    assert(!comment.contains('\n'));
    text::lemma_first_line(comment, gpu_body(rows));
    let ls = seq![text::strip_cr(comment)] + text::lines(gpu_body(rows));
    assert(ls.drop_first() =~= text::lines(gpu_body(rows)));
    assert(ls[0][0] == '#');
}

proof fn lemma_cpu_line(r: CpuFields)
    requires
        storable(r.comm),
        !r.cpu.contains('\n'),
    ensures
        !cpu_line(r).contains('\n'),
        cpu_row_in(text::strip_cr(cpu_line(r))) == Some(cpu_trimmed(r)),
{
    let line = cpu_line(r);
    assert(!line.contains('\n')) by {
        assert(!seq![','].contains('\n'));
        lemma_absent(r.comm, seq![','], '\n');
        lemma_absent(r.comm + seq![','], r.cpu, '\n');
    }
    let kept = text::strip_cr(r.cpu);
    let l = text::strip_cr(line);
    assert(text::trim(kept) == text::trim(r.cpu)) by {
        if r.cpu.len() > 0 && r.cpu.last() == '\r' {
            assert(text::is_white('\r'));
            text::lemma_trim_white_end(r.cpu);
        }
    }
    assert(l =~= r.comm + seq![','] + kept) by {
        if r.cpu.len() > 0 {
            assert(line.last() == r.cpu.last());
        } else {
            assert(line.last() == ',');
        }
    }
    lemma_first_field(r.comm, kept, 2);
    assert(text::split_at_most(kept, ',', 1) =~= seq![kept]);
    assert(text::split_at_most(l, ',', 2) =~= seq![r.comm, kept]);
    assert(l.len() > 0 && l[0] != '#') by {
        if r.comm.len() == 0 {
            assert(l[0] == ',');
        } else {
            assert(l[0] == r.comm[0]);
        }
    }
}

proof fn lemma_cpu_body(rows: Seq<CpuFields>)
    requires
        forall|i: int|
            0 <= i < rows.len() ==> {
                &&& storable((#[trigger] rows[i]).comm)
                &&& !rows[i].cpu.contains('\n')
            },
    ensures
        cpu_rows_in(text::lines(cpu_body(rows))) == rows.map_values(|r: CpuFields| cpu_trimmed(r)),
    decreases rows.len(),
{
    let back = rows.map_values(|r: CpuFields| cpu_trimmed(r));
    if rows.len() > 0 {
        let rest = rows.drop_first();
        assert forall|i: int| 0 <= i < rest.len() implies {
            &&& storable((#[trigger] rest[i]).comm)
            &&& !rest[i].cpu.contains('\n')
        } by {
            assert(rest[i] == rows[i + 1]);
        }
        lemma_cpu_body(rest);
        lemma_cpu_line(rows[0]);
        let line = cpu_line(rows[0]);
        text::lemma_first_line(line, cpu_body(rest));
        let ls = seq![text::strip_cr(line)] + text::lines(cpu_body(rest));
        assert(ls.drop_first() =~= text::lines(cpu_body(rest)));
        assert(back =~= seq![cpu_trimmed(rows[0])] + rest.map_values(
            |r: CpuFields| cpu_trimmed(r),
        ));
    } else {
        assert(back =~= Seq::<CpuFields>::empty());
    }
}

/// What the CPU scheduler saved it finds again in its next run: every row, in
/// the order in which it was written. Names with a comma, with a line feed or
/// with a `#` in front are the ones that do not come back.
pub proof fn law_cpu_file_survives(rows: Seq<CpuFields>)
    requires
        forall|i: int|
            0 <= i < rows.len() ==> {
                &&& storable((#[trigger] rows[i]).comm)
                &&& !rows[i].cpu.contains('\n')
            },
    ensures
        cpu_rows_in(text::lines(CPU_HEADER@ + cpu_body(rows))) == rows.map_values(
            |r: CpuFields| cpu_trimmed(r),
        ),
{
    lemma_cpu_body(rows);
    reveal_strlit("# TGD learned — comm,smooth_cpu\n");
    let n = CPU_HEADER@.len() - 1;
    let comment = CPU_HEADER@.take(n);
    assert(CPU_HEADER@ =~= comment + seq!['\n']);
    assert(!comment.contains('\n'));
    text::lemma_first_line(comment, cpu_body(rows));
    let ls = seq![text::strip_cr(comment)] + text::lines(cpu_body(rows));
    assert(ls.drop_first() =~= text::lines(cpu_body(rows)));
    assert(ls[0][0] == '#');
}

/// The GPU scheduler's file is a comment line and a line for each row, in their
/// order: the name, the share and the owner, with commas between them.
pub proof fn law_gpu_file_has_a_line_each(rows: Seq<GpuFields>)
    ensures
        GPU_HEADER@ + gpu_body(rows) == "# NTvidia learned — comm,gpu_rate_ema,uid\n"@
            + text::ended(
            rows.map_values(
                |r: GpuFields|
                    r.comm + seq![','] + r.ema + seq![','] + text::digits_of(r.uid as nat),
            ),
        ),
{
    lemma_gpu_body_is(rows);
}

proof fn lemma_gpu_body_is(rows: Seq<GpuFields>)
    ensures
        gpu_body(rows) == text::ended(
            rows.map_values(
                |r: GpuFields|
                    r.comm + seq![','] + r.ema + seq![','] + text::digits_of(r.uid as nat),
            ),
        ),
    decreases rows.len(),
{
    let f = |r: GpuFields|
        r.comm + seq![','] + r.ema + seq![','] + text::digits_of(r.uid as nat);
    let ls = rows.map_values(f);
    if rows.len() > 0 {
        lemma_gpu_body_is(rows.drop_first());
        assert(ls.drop_first() =~= rows.drop_first().map_values(f));
        assert(gpu_line(rows[0]) =~= ls[0]);
    }
}

/// The CPU scheduler's file is a comment line and a line for each row, in their
/// order: the name and the share, with a comma between them.
pub proof fn law_cpu_file_has_a_line_each(rows: Seq<CpuFields>)
    ensures
        CPU_HEADER@ + cpu_body(rows) == "# TGD learned — comm,smooth_cpu\n"@ + text::ended(
            rows.map_values(|r: CpuFields| r.comm + seq![','] + r.cpu),
        ),
{
    lemma_cpu_body_is(rows);
}

proof fn lemma_cpu_body_is(rows: Seq<CpuFields>)
    ensures
        cpu_body(rows) == text::ended(
            rows.map_values(|r: CpuFields| r.comm + seq![','] + r.cpu),
        ),
    decreases rows.len(),
{
    let f = |r: CpuFields| r.comm + seq![','] + r.cpu;
    let ls = rows.map_values(f);
    if rows.len() > 0 {
        lemma_cpu_body_is(rows.drop_first());
        assert(ls.drop_first() =~= rows.drop_first().map_values(f));
        assert(cpu_line(rows[0]) =~= ls[0]);
    }
}

/// A line of the GPU scheduler's file is read as a name, a share and an owner.
/// Where the owner is missing or is no number, it is 1000. White space round the
/// fields does not count.
pub proof fn law_gpu_line_is_read(comm: Seq<char>, ema: Seq<char>, owner: Seq<char>)
    requires
        !comm.contains(','),
        comm.len() > 0 ==> comm[0] != '#',
        !ema.contains(','),
    ensures
        gpu_row_in(comm + seq![','] + ema) == Some(
            GpuFields { comm: text::trim(comm), ema: text::trim(ema), uid: 1000 },
        ),
        gpu_row_in(comm + seq![','] + (ema + seq![','] + owner)) == Some(
            GpuFields {
                comm: text::trim(comm),
                ema: text::trim(ema),
                uid: match text::parse_unsigned(text::trim(owner), 4294967295) {
                    Some(n) => n as u32,
                    None => 1000,
                },
            },
        ),
{
    let tail = ema + seq![','] + owner;
    let (a, b) = (comm + seq![','] + ema, comm + seq![','] + tail);
    text::law_fields_end_in_separators(comm, ',', ema, 3);
    text::law_fields_end_in_separators(comm, ',', tail, 3);
    text::law_fields_end_in_separators(ema, ',', owner, 2);
    assert(text::split_at_most(a, ',', 3) =~= seq![comm, ema]);
    assert(text::split_at_most(b, ',', 3) =~= seq![comm, ema, owner]);
    if comm.len() > 0 {
        assert(a[0] == comm[0] && b[0] == comm[0]);
    } else {
        assert(a[0] == ',' && b[0] == ',');
    }
}

/// A line of the CPU scheduler's file is read as a name and a share, which is all
/// that follows the first comma. White space round the fields does not count.
pub proof fn law_cpu_line_is_read(comm: Seq<char>, cpu: Seq<char>)
    requires
        !comm.contains(','),
        comm.len() > 0 ==> comm[0] != '#',
    ensures
        cpu_row_in(comm + seq![','] + cpu) == Some(
            CpuFields { comm: text::trim(comm), cpu: text::trim(cpu) },
        ),
{
    let a = comm + seq![','] + cpu;
    text::law_fields_end_in_separators(comm, ',', cpu, 2);
    assert(text::split_at_most(a, ',', 2) =~= seq![comm, cpu]);
    if comm.len() > 0 {
        assert(a[0] == comm[0]);
    } else {
        assert(a[0] == ',');
    }
}

/// Empty lines, comments and lines without a comma say nothing.
pub proof fn law_other_lines_say_nothing(line: Seq<char>)
    requires
        line.len() == 0 || line[0] == '#' || !line.contains(','),
    ensures
        gpu_row_in(line) is None,
        cpu_row_in(line) is None,
{
    if !line.contains(',') {
        text::law_fields_end_in_separators(line, ',', line, 3);
        text::law_fields_end_in_separators(line, ',', line, 2);
    }
}

/// Every line that says something gives its row, in the order of the lines.
pub proof fn law_rows_come_line_by_line(l: Seq<char>, ls: Seq<Seq<char>>)
    ensures
        gpu_rows_in(seq![l] + ls) == (match gpu_row_in(l) {
            Some(r) => seq![r] + gpu_rows_in(ls),
            None => gpu_rows_in(ls),
        }),
        cpu_rows_in(seq![l] + ls) == (match cpu_row_in(l) {
            Some(r) => seq![r] + cpu_rows_in(ls),
            None => cpu_rows_in(ls),
        }),
        gpu_rows_in(Seq::<Seq<char>>::empty()).len() == 0,
        cpu_rows_in(Seq::<Seq<char>>::empty()).len() == 0,
{
    let all = seq![l] + ls;
    assert(all[0] == l);
    assert(all.drop_first() =~= ls);
}

} // verus!
