//! The score files, by which the GPU scheduler tells what it learned of a
//! process: how they are named, what they hold, and how they are read.

use crate::text;
use vstd::prelude::*;
use vstd::slice::slice_subrange;

verus! {

/// Where the score files lie.
pub const SCORES_DIR: &'static str = "/run/ntvidia/scores";

/// The start of the line of a score file that the CPU scheduler reads.
pub const EMA_PREFIX: &'static str = "gpu_ema=";

/// Whether Unicode has a character for a letter or a number.
pub uninterp spec fn alphanumeric(c: char) -> bool;

/// `char::is_alphanumeric`: it depends on the character alone, and among the
/// characters of ASCII it holds of letters and digits only.
pub assume_specification[ char::is_alphanumeric ](c: char) -> (r: bool)
    ensures
        r == alphanumeric(c),
        (c as u32) < 0x80 ==> r == ascii_alphanumeric(c),
;

pub open spec fn ascii_alphanumeric(c: char) -> bool {
    'a' <= c <= 'z' || 'A' <= c <= 'Z' || '0' <= c <= '9'
}

/// A character as it stands in a file name.
pub open spec fn safe_char(c: char) -> char {
    if alphanumeric(c) || c == '-' || c == '_' {
        c
    } else {
        '_'
    }
}

/// The file name for a process name.
pub open spec fn sanitized(comm: Seq<char>) -> Seq<char> {
    comm.map_values(|c: char| safe_char(c))
}

/// Whether the ASCII characters of a name are letters, digits, `-` and `_`:
/// such a name stays in the directory that it is put in.
pub open spec fn plain_name(s: Seq<char>) -> bool {
    forall|i: int|
        0 <= i < s.len() && (#[trigger] s[i] as u32) < 0x80 ==> ascii_alphanumeric(s[i]) || s[i]
            == '-' || s[i] == '_'
}

/// Whether of each ASCII character of a text it is settled what Unicode has it
/// for: a letter or a digit, or neither.
pub open spec fn ascii_settled(s: Seq<char>) -> bool {
    forall|i: int|
        0 <= i < s.len() && (#[trigger] s[i] as u32) < 0x80 ==> (alphanumeric(s[i])
            <==> ascii_alphanumeric(s[i]))
}

/// Where the score of a process lies.
pub open spec fn path_of(comm: Seq<char>) -> Seq<char> {
    SCORES_DIR@ + seq!['/'] + sanitized(comm)
}

/// What a score file holds: whether the process belongs on the GPU, four
/// numbers as text, and the time of the last change.
pub open spec fn score_of(
    use_gpu: bool,
    x: Seq<char>,
    density: Seq<char>,
    gpu_ema: Seq<char>,
    sigma: Seq<char>,
    ts: nat,
) -> Seq<char> {
    "use_gpu="@ + seq![
        if use_gpu {
            '1'
        } else {
            '0'
        },
    ] + seq!['\n'] + ("x="@ + x + seq!['\n'] + ("density="@ + density + seq!['\n'] + (EMA_PREFIX@
        + gpu_ema + seq!['\n'] + ("sigma="@ + sigma + seq!['\n'] + ("ts="@ + text::digits_of(ts)
        + seq!['\n'])))))
}

/// The text of the learned GPU share in a score file.
pub open spec fn ema_text_in(content: Seq<char>) -> Option<Seq<char>> {
    match text::line_with(text::lines(content), EMA_PREFIX@) {
        Some(l) => Some(text::trim(l.skip(EMA_PREFIX@.len() as int))),
        None => None,
    }
}

/// The file name for a process name: what is neither a letter, a number, `-`
/// nor `_` becomes `_`.
pub fn sanitize_comm(comm: &str) -> (r: String)
    ensures
        r@ == sanitized(comm@),
        ascii_settled(comm@),
        plain_name(r@),
{
    let cs = text::chars_of(comm);
    let mut out = String::new();
    let mut i: usize = 0;
    while i < cs.len()
        invariant
            i <= cs@.len(),
            cs@ == comm@,
            out@ == sanitized(comm@.take(i as int)),
            ascii_settled(comm@.take(i as int)),
            plain_name(out@),
        decreases cs.len() - i,
    {
        let c: char = cs[i];
        let safe: char = if c.is_alphanumeric() || c == '-' || c == '_' {
            c
        } else {
            '_'
        };
        out.push(safe);
        assert(comm@.take(i + 1) =~= comm@.take(i as int).push(c));
        assert(sanitized(comm@.take(i + 1)) =~= sanitized(comm@.take(i as int)).push(safe));
        i = i + 1;
    }
    assert(comm@.take(i as int) =~= comm@);
    out
}

/// Where the score of a process lies.
pub fn score_path(comm: &str) -> (r: String)
    ensures
        r@ == path_of(comm@),
        ascii_settled(comm@),
{
    let mut out = String::new();
    out.append(SCORES_DIR);
    out.push('/');
    let name = sanitize_comm(comm);
    out.append(name.as_str());
    assert(out@ =~= path_of(comm@));
    out
}

/// Writes a line of a score file.
fn push_line(out: &mut String, key: &str, value: &str)
    ensures
        final(out)@ == old(out)@ + (key@ + value@ + seq!['\n']),
{
    out.append(key);
    out.append(value);
    out.push('\n');
    assert(out@ =~= old(out)@ + (key@ + value@ + seq!['\n']));
}

/// What is written into a score file.
pub fn score_text(
    use_gpu: bool,
    x: &str,
    density: &str,
    gpu_ema: &str,
    sigma: &str,
    ts: u64,
) -> (r: String)
    ensures
        r@ == score_of(use_gpu, x@, density@, gpu_ema@, sigma@, ts as nat),
{
    let mut out = String::new();
    out.append("use_gpu=");
    out.push(
        if use_gpu {
            '1'
        } else {
            '0'
        },
    );
    out.push('\n');
    push_line(&mut out, "x=", x);
    push_line(&mut out, "density=", density);
    push_line(&mut out, EMA_PREFIX, gpu_ema);
    push_line(&mut out, "sigma=", sigma);
    out.append("ts=");
    text::push_number(&mut out, ts);
    out.push('\n');
    assert(out@ =~= score_of(use_gpu, x@, density@, gpu_ema@, sigma@, ts as nat));
    out
}

/// The text of the learned GPU share in a score file, if there is such a file
/// and it tells.
pub fn read_ntvidia_gpu_ema(content: Option<&str>) -> (r: Option<String>)
    ensures
        r is Some <==> content is Some && ema_text_in(content->0@) is Some,
        r matches Some(t) ==> ema_text_in(content->0@) == Some(t@),
{
    match content {
        None => None,
        Some(s) => {
            let cs = text::chars_of(s);
            match text::find_line(cs.as_slice(), EMA_PREFIX) {
                None => None,
                Some(l) => {
                    let p = text::chars_of(EMA_PREFIX);
                    let rest = slice_subrange(l, p.len(), l.len());
                    assert(rest@ =~= l@.skip(EMA_PREFIX@.len() as int));
                    Some(text::string_of(text::trimmed(rest)))
                },
            }
        },
    }
}

/// A file name is its own file name: a score is found under the name that it
/// was written under, and no name grows or shrinks.
pub proof fn law_sanitized_is_stable(comm: Seq<char>)
    ensures
        sanitized(sanitized(comm)) == sanitized(comm),
        sanitized(comm).len() == comm.len(),
{
    assert(sanitized(sanitized(comm)) =~= sanitized(comm));
}

/// A name made of letters, digits, `-` and `_` of ASCII is its own file name.
pub proof fn law_plain_names_are_kept(comm: Seq<char>)
    requires
        ascii_settled(comm),
        plain_name(comm),
        forall|i: int| 0 <= i < comm.len() ==> (#[trigger] comm[i] as u32) < 0x80,
    ensures
        sanitized(comm) == comm,
{
    assert forall|i: int| 0 <= i < comm.len() implies safe_char(#[trigger] comm[i]) == comm[i] by {
        assert((comm[i] as u32) < 0x80);
    }
    assert(sanitized(comm) =~= comm);
}

/// The CPU scheduler reads the learned GPU share that the GPU scheduler wrote,
/// whatever the numbers are, as long as each stands on one line.
pub proof fn law_score_is_read_back(
    use_gpu: bool,
    x: Seq<char>,
    density: Seq<char>,
    gpu_ema: Seq<char>,
    sigma: Seq<char>,
    ts: nat,
)
    requires
        !x.contains('\n'),
        !density.contains('\n'),
        !gpu_ema.contains('\n'),
    ensures
        ema_text_in(score_of(use_gpu, x, density, gpu_ema, sigma, ts)) == Some(text::trim(gpu_ema)),
{
    reveal_strlit("use_gpu=");
    reveal_strlit("x=");
    reveal_strlit("density=");
    reveal_strlit("gpu_ema=");
    let bit = if use_gpu {
        '1'
    } else {
        '0'
    };
    let last = "sigma="@ + sigma + seq!['\n'] + ("ts="@ + text::digits_of(ts) + seq!['\n']);
    let l1 = "use_gpu="@ + seq![bit];
    let l2 = "x="@ + x;
    let l3 = "density="@ + density;
    let l4 = EMA_PREFIX@ + gpu_ema;
    let t4 = l4 + seq!['\n'] + last;
    let t3 = l3 + seq!['\n'] + t4;
    let t2 = l2 + seq!['\n'] + t3;
    assert(EMA_PREFIX@ == "gpu_ema="@);
    assert(!l1.contains('\n'));
    lemma_no_feed("x="@, x);
    lemma_no_feed("density="@, density);
    lemma_no_feed(EMA_PREFIX@, gpu_ema);
    text::lemma_first_line(l1, t2);
    text::lemma_first_line(l2, t3);
    text::lemma_first_line(l3, t4);
    text::lemma_first_line(l4, last);
    // All that the line can lose at its end is white space.
    let s4 = text::strip_cr(l4);
    assert(text::trim(s4.skip(EMA_PREFIX@.len() as int)) == text::trim(gpu_ema)) by {
        if gpu_ema.len() > 0 && gpu_ema.last() == '\r' {
            assert(l4.last() == gpu_ema.last());
            assert(text::is_white('\r'));
            text::lemma_trim_white_end(gpu_ema);
            assert(s4.skip(EMA_PREFIX@.len() as int) =~= gpu_ema.drop_last());
        } else {
            if gpu_ema.len() > 0 {
                assert(l4.last() == gpu_ema.last());
            } else {
                assert(l4 =~= EMA_PREFIX@);
            }
            assert(s4.skip(EMA_PREFIX@.len() as int) =~= gpu_ema);
        }
    }
    assert(EMA_PREFIX@.is_prefix_of(s4)) by {
        assert(s4.take(EMA_PREFIX@.len() as int) =~= EMA_PREFIX@);
    }
    // The lines before it start with another character.
    assert(text::strip_cr(l1)[0] == 'u' && text::strip_cr(l2)[0] == 'x' && text::strip_cr(l3)[0]
        == 'd');
    let (s1, s2, s3) = (text::strip_cr(l1), text::strip_cr(l2), text::strip_cr(l3));
    assert(!EMA_PREFIX@.is_prefix_of(s1) && !EMA_PREFIX@.is_prefix_of(s2)
        && !EMA_PREFIX@.is_prefix_of(s3)) by {
        assert(EMA_PREFIX@[0] == 'g');
    }
    text::lemma_line_further_on(s1, text::lines(t2), EMA_PREFIX@);
    text::lemma_line_further_on(s2, text::lines(t3), EMA_PREFIX@);
    text::lemma_line_further_on(s3, text::lines(t4), EMA_PREFIX@);
    text::lemma_line_further_on(s4, text::lines(last), EMA_PREFIX@);
}

proof fn lemma_no_feed(key: Seq<char>, value: Seq<char>)
    requires
        !key.contains('\n'),
        !value.contains('\n'),
    ensures
        !(key + value).contains('\n'),
{
    let s = key + value;
    if s.contains('\n') {
        let i = choose|i: int| 0 <= i < s.len() && s[i] == '\n';
        if i < key.len() {
            assert(key[i] == '\n');
        } else {
            assert(value[i - key.len()] == '\n');
        }
    }
}

/// A file name has a character for each of the process name: letters, numbers,
/// `-` and `_` stay, and anything else becomes `_`.
pub proof fn law_file_names(comm: Seq<char>, i: int)
    requires
        0 <= i < comm.len(),
    ensures
        sanitized(comm).len() == comm.len(),
        alphanumeric(comm[i]) || comm[i] == '-' || comm[i] == '_' ==> sanitized(comm)[i] == comm[i],
        !alphanumeric(comm[i]) && comm[i] != '-' ==> sanitized(comm)[i] == '_',
{
}

/// A score lies in the directory of the scores, under its file name.
pub proof fn law_scores_lie_in_their_directory(comm: Seq<char>)
    ensures
        path_of(comm) == "/run/ntvidia/scores"@ + seq!['/'] + sanitized(comm),
        ascii_alphanumeric('a') && ascii_alphanumeric('Z') && ascii_alphanumeric('5'),
        !ascii_alphanumeric('/') && !ascii_alphanumeric('.') && !ascii_alphanumeric(' '),
{
}

/// A score is six lines, in this order.
pub proof fn law_score_is_six_lines(
    use_gpu: bool,
    x: Seq<char>,
    density: Seq<char>,
    gpu_ema: Seq<char>,
    sigma: Seq<char>,
    ts: nat,
)
    ensures
        score_of(use_gpu, x, density, gpu_ema, sigma, ts) == text::ended(
            seq![
                if use_gpu {
                    "use_gpu="@ + seq!['1']
                } else {
                    "use_gpu="@ + seq!['0']
                },
                "x="@ + x,
                "density="@ + density,
                "gpu_ema="@ + gpu_ema,
                "sigma="@ + sigma,
                "ts="@ + text::digits_of(ts),
            ],
        ),
{
    let l1 = if use_gpu {
        "use_gpu="@ + seq!['1']
    } else {
        "use_gpu="@ + seq!['0']
    };
    let (l2, l3, l4) = ("x="@ + x, "density="@ + density, "gpu_ema="@ + gpu_ema);
    let (l5, l6) = ("sigma="@ + sigma, "ts="@ + text::digits_of(ts));
    let a1 = seq![l1, l2, l3, l4, l5, l6];
    let a2 = a1.drop_first();
    let a3 = a2.drop_first();
    let a4 = a3.drop_first();
    let a5 = a4.drop_first();
    let a6 = a5.drop_first();
    let a7 = a6.drop_first();
    assert(a7.len() == 0);
    assert(a6[0] == l6 && a5[0] == l5 && a4[0] == l4 && a3[0] == l3 && a2[0] == l2);
    let feed = seq!['\n'];
    assert(text::ended(a7) =~= Seq::<char>::empty());
    assert(text::ended(a6) =~= l6 + feed) by {
        assert(text::ended(a6) == l6 + feed + text::ended(a7));
    }
    assert(text::ended(a5) == l5 + feed + text::ended(a6));
    assert(text::ended(a4) == l4 + feed + text::ended(a5));
    assert(text::ended(a3) == l3 + feed + text::ended(a4));
    assert(text::ended(a2) == l2 + feed + text::ended(a3));
    assert(text::ended(a1) =~= l1 + feed + (l2 + feed + (l3 + feed + (l4 + feed + (l5 + feed + (l6
        + feed))))));
}

/// The share in a score is what stands in the first line that starts with
/// `gpu_ema=`, without the white space round it, whatever lines come before it
/// and after it; without such a line there is none.
pub proof fn law_share_is_found(ls: Seq<Seq<char>>, value: Seq<char>, rest: Seq<char>)
    requires
        text::are_lines(ls),
        forall|i: int| 0 <= i < ls.len() ==> !"gpu_ema="@.is_prefix_of(#[trigger] ls[i]),
        text::is_line("gpu_ema="@ + value),
    ensures
        ema_text_in(text::ended(ls) + ("gpu_ema="@ + value + seq!['\n'] + rest)) == Some(
            text::trim(value),
        ),
        ema_text_in(text::ended(ls)) is None,
{
    text::law_line_is_found_in_a_text(ls, "gpu_ema="@, value, rest);
    assert(("gpu_ema="@ + value).skip("gpu_ema="@.len() as int) =~= value);
}

} // verus!
