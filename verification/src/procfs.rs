//! Reading the text that the kernel shows under `/proc`.

use crate::text;
use vstd::prelude::*;
use vstd::slice::slice_subrange;

verus! {

/// The owner that is taken for a process whose owner cannot be read.
pub const DEFAULT_UID: u32 = 1000;

/// The start of the line that names the owner.
pub const UID_PREFIX: &'static str = "Uid:";

/// The start of the line that counts the read calls.
pub const SYSCR_PREFIX: &'static str = "syscr: ";

/// The owner in a `status` text: the second word of its first `Uid:` line.
pub open spec fn uid_in(status: Seq<char>) -> Option<nat> {
    match text::line_with(text::lines(status), UID_PREFIX@) {
        Some(l) => if text::words(l).len() > 1 {
            text::parse_unsigned(text::words(l)[1], u32::MAX as nat)
        } else {
            None
        },
        None => None,
    }
}

/// How much of `s` is taken up to its last `c`; nothing, if there is none.
pub open spec fn through_last(s: Seq<char>, c: char) -> nat
    decreases s.len(),
{
    if s.len() == 0 {
        0
    } else if s.last() == c {
        s.len()
    } else {
        through_last(s.drop_last(), c)
    }
}

/// Whether a character takes one byte.
pub open spec fn one_byte(c: char) -> bool {
    (c as u32) < 0x80
}

/// Whether a character takes two bytes.
pub open spec fn two_bytes(c: char) -> bool {
    0x80 <= c as u32 && (c as u32) < 0x800
}

/// What follows the name of the process in a `stat` text: the text from the
/// second byte after the last closing bracket on, or from the third byte of all
/// if there is no bracket. There is none if the text is shorter than that, or
/// if a character stands across that place.
pub open spec fn stat_tail(stat: Seq<char>) -> Option<Seq<char>> {
    let p = through_last(stat, ')') as int;
    if p > 0 {
        if p < stat.len() && one_byte(stat[p]) {
            Some(stat.skip(p + 1))
        } else {
            None
        }
    } else if stat.len() >= 2 && one_byte(stat[0]) && one_byte(stat[1]) {
        Some(stat.skip(2))
    } else if stat.len() >= 1 && two_bytes(stat[0]) {
        Some(stat.skip(1))
    } else {
        None
    }
}

/// A counter among the words of a text; zero, if it is not there or no number.
pub open spec fn counter(ws: Seq<Seq<char>>, i: int) -> nat {
    if i < ws.len() && text::parse_unsigned(ws[i], u64::MAX as nat) is Some {
        text::parse_unsigned(ws[i], u64::MAX as nat)->0
    } else {
        0
    }
}

/// The ticks that a process spent, in user mode and in the kernel.
pub open spec fn ticks_in(stat: Seq<char>) -> nat {
    let ws = text::words(stat_tail(stat)->0);
    counter(ws, 11) + counter(ws, 12)
}

/// Whether the ticks can be read off a `stat` text: its fields can be reached
/// and the ticks fit a counter.
pub open spec fn stat_sound(stat: Seq<char>) -> bool {
    stat_tail(stat) is Some && ticks_in(stat) <= u64::MAX
}

/// The read calls counted in an `io` text; zero, if it does not tell.
pub open spec fn syscr_in(io: Seq<char>) -> nat {
    match text::line_with(text::lines(io), SYSCR_PREFIX@) {
        Some(l) => {
            let n = text::parse_unsigned(text::trim(l.skip(SYSCR_PREFIX@.len() as int)), u64::MAX as nat);
            if n is Some {
                n->0
            } else {
                0
            }
        },
        None => 0,
    }
}

/// Whether an entry of `/proc` is a process: its name is made of digits.
pub fn is_pid_name(name: &str) -> (r: bool)
    ensures
        r == text::all_digits(name@),
        r == (forall|i: int| 0 <= i < name@.len() ==> '0' <= #[trigger] name@[i] <= '9'),
{
    let cs = text::chars_of(name);
    let mut i: usize = 0;
    while i < cs.len()
        invariant
            i <= cs@.len(),
            cs@ == name@,
            forall|j: int| 0 <= j < i ==> text::is_digit(#[trigger] cs@[j]),
        decreases cs.len() - i,
    {
        if cs[i] < '0' || cs[i] > '9' {
            assert(!text::is_digit(name@[i as int]));
            return false;
        }
        i = i + 1;
    }
    true
}

/// The name of a process, out of its `comm` text.
pub fn comm_name(comm_raw: &str) -> (r: String)
    ensures
        r@ == text::trim(comm_raw@),
{
    let cs = text::chars_of(comm_raw);
    text::string_of(text::trimmed(cs.as_slice()))
}

/// The owner of a process, out of its `status` text, if that could be read.
pub fn read_uid(status: Option<&str>) -> (r: Option<u32>)
    ensures
        r is Some <==> (status is Some && uid_in(status->0@) is Some),
        r matches Some(uid) ==> uid_in(status->0@) == Some(uid as nat),
{
    match status {
        None => None,
        Some(s) => {
            let cs = text::chars_of(s);
            match text::find_line(cs.as_slice(), UID_PREFIX) {
                None => None,
                Some(l) => {
                    let ws = text::word_list(l);
                    assert(text::views(ws@).len() == ws@.len());
                    if ws.len() > 1 {
                        assert(text::views(ws@)[1] == ws@[1]@);
                        match text::parse_number(ws[1], u32::MAX as u64) {
                            Some(n) => Some(n as u32),
                            None => None,
                        }
                    } else {
                        None
                    }
                },
            }
        },
    }
}

/// The counter at place `i` of a row of words.
fn counter_at(ws: &Vec<&[char]>, i: usize) -> (r: u64)
    ensures
        r == counter(text::views(ws@), i as int),
{
    assert(text::views(ws@).len() == ws@.len());
    if i < ws.len() {
        assert(text::views(ws@)[i as int] == ws@[i as int]@);
        match text::parse_number(ws[i], u64::MAX) {
            Some(n) => n,
            None => 0,
        }
    } else {
        0
    }
}

/// How much of `s` is taken up to its last `c`.
fn through(s: &[char], c: char) -> (r: usize)
    ensures
        r == through_last(s@, c),
        r <= s@.len(),
{
    let mut n: usize = s.len();
    assert(s@.take(n as int) =~= s@);
    while n > 0 && s[n - 1] != c
        invariant
            n <= s@.len(),
            through_last(s@, c) == through_last(s@.take(n as int), c),
        decreases n,
    {
        assert(s@.take(n as int).drop_last() =~= s@.take(n - 1));
        n = n - 1;
    }
    n
}

/// What follows the name of the process in a `stat` text.
fn tail_of<'a>(s: &'a [char]) -> (r: Option<&'a [char]>)
    ensures
        r is Some <==> stat_tail(s@) is Some,
        r matches Some(t) ==> stat_tail(s@) == Some(t@),
{
    let p: usize = through(s, ')');
    if p > 0 {
        if p < s.len() && (s[p] as u32) < 0x80 {
            let t = slice_subrange(s, p + 1, s.len());
            assert(t@ =~= s@.skip(p + 1));
            Some(t)
        } else {
            None
        }
    } else if s.len() >= 2 && (s[0] as u32) < 0x80 && (s[1] as u32) < 0x80 {
        let t = slice_subrange(s, 2, s.len());
        assert(t@ =~= s@.skip(2));
        Some(t)
    } else if s.len() >= 1 && 0x80 <= s[0] as u32 && (s[0] as u32) < 0x800 {
        let t = slice_subrange(s, 1, s.len());
        assert(t@ =~= s@.skip(1));
        Some(t)
    } else {
        None
    }
}

/// Whether the ticks can be read off a `stat` text.
pub fn stat_is_sound(stat: &str) -> (r: bool)
    ensures
        r == stat_sound(stat@),
{
    let cs = text::chars_of(stat);
    match tail_of(cs.as_slice()) {
        None => false,
        Some(t) => {
            let ws = text::word_list(t);
            let ut: u64 = counter_at(&ws, 11);
            let st: u64 = counter_at(&ws, 12);
            ut <= u64::MAX - st
        },
    }
}

/// The ticks that a process spent, out of its `stat` text; zero, if that could
/// not be read.
pub fn read_cpu_ticks(stat: Option<&str>) -> (r: u64)
    requires
        stat is Some ==> stat_sound(stat->0@),
    ensures
        r == (if stat is Some {
            ticks_in(stat->0@)
        } else {
            0
        }),
{
    match stat {
        None => 0,
        Some(s) => {
            let cs = text::chars_of(s);
            match tail_of(cs.as_slice()) {
                None => 0,
                Some(t) => {
                    let ws = text::word_list(t);
                    let ut: u64 = counter_at(&ws, 11);
                    let st: u64 = counter_at(&ws, 12);
                    ut + st
                },
            }
        },
    }
}

/// The read calls of a process, out of its `io` text; zero, if that could not
/// be read or does not tell.
pub fn read_syscr(io: Option<&str>) -> (r: u64)
    ensures
        r == (if io is Some {
            syscr_in(io->0@)
        } else {
            0
        }),
{
    match io {
        None => 0,
        Some(s) => {
            let cs = text::chars_of(s);
            match text::find_line(cs.as_slice(), SYSCR_PREFIX) {
                None => 0,
                Some(l) => {
                    let p = text::chars_of(SYSCR_PREFIX);
                    let rest = slice_subrange(l, p.len(), l.len());
                    assert(rest@ =~= l@.skip(SYSCR_PREFIX@.len() as int));
                    match text::parse_number(text::trimmed(rest), u64::MAX) {
                        Some(n) => n,
                        None => 0,
                    }
                },
            }
        },
    }
}

// ---------------------------------------------------------------------------
// Laws
// ---------------------------------------------------------------------------

/// The owner is the second word of the first line that starts with `Uid:`,
/// whatever lines come before it and whatever comes after that word; without such
/// a line or such a word there is none.
pub proof fn law_owner_is_read(
    ls: Seq<Seq<char>>,
    gap: Seq<char>,
    word: Seq<char>,
    tail: Seq<char>,
    rest: Seq<char>,
)
    requires
        text::are_lines(ls),
        forall|i: int| 0 <= i < ls.len() ==> !"Uid:"@.is_prefix_of(#[trigger] ls[i]),
        gap.len() > 0,
        text::blank(gap),
        word.len() > 0,
        text::solid(word),
        tail.len() > 0 ==> text::is_white(tail[0]),
        text::is_line("Uid:"@ + (gap + word + tail)),
        text::is_line("Uid:"@ + gap),
    ensures
        uid_in(text::ended(ls) + ("Uid:"@ + (gap + word + tail) + seq!['\n'] + rest))
            == text::parse_unsigned(word, 4294967295),
        uid_in(text::ended(ls) + ("Uid:"@ + gap + seq!['\n'] + rest)) is None,
        uid_in(text::ended(ls)) is None,
{
    reveal_strlit("Uid:");
    let value = gap + word + tail;
    text::law_line_is_found_in_a_text(ls, "Uid:"@, value, rest);
    text::law_line_is_found_in_a_text(ls, "Uid:"@, gap, rest);
    let none = Seq::<char>::empty();
    assert(text::solid("Uid:"@));
    assert(value[0] == gap[0]);
    text::law_words_end_in_white_space(none, "Uid:"@, value);
    assert(none + "Uid:"@ + value =~= "Uid:"@ + value);
    text::law_words_end_in_white_space(gap, word, tail);
    let ws = text::words("Uid:"@ + value);
    assert(ws[1] == word);
    text::law_words_end_in_white_space(none, "Uid:"@, gap);
    assert(none + "Uid:"@ + gap =~= "Uid:"@ + gap);
    assert(text::words("Uid:"@ + gap).len() == 1);
}

/// Some words, each after a blank.
pub open spec fn spaced(ws: Seq<Seq<char>>) -> Seq<char>
    decreases ws.len(),
{
    if ws.len() == 0 {
        Seq::empty()
    } else {
        seq![' '] + ws[0] + spaced(ws.drop_first())
    }
}

/// Whether these are words: no white space in them, and none is empty.
pub open spec fn are_words(ws: Seq<Seq<char>>) -> bool {
    forall|i: int| 0 <= i < ws.len() ==> (#[trigger] ws[i]).len() > 0 && text::solid(ws[i])
}

proof fn lemma_spaced(ws: Seq<Seq<char>>, end: Seq<char>)
    requires
        are_words(ws),
        text::blank(end),
    ensures
        text::words(spaced(ws) + end) == ws,
        ws.len() > 0 ==> text::words((spaced(ws) + end).skip(1)) == ws,
        spaced(ws).len() > 0 ==> spaced(ws)[0] == ' ',
    decreases ws.len(),
{
    let none = Seq::<char>::empty();
    if ws.len() == 0 {
        assert(spaced(ws) + end =~= end);
        assert(end + none =~= end);
        assert(text::solid(seq!['x']));
        text::law_words_end_in_white_space(end, seq!['x'], none);
        assert(ws =~= text::words(end));
    } else {
        let tail = ws.drop_first();
        assert(are_words(tail)) by {
            assert forall|i: int| 0 <= i < tail.len() implies (#[trigger] tail[i]).len() > 0
                && text::solid(tail[i]) by {
                assert(tail[i] == ws[i + 1]);
            }
        }
        lemma_spaced(tail, end);
        let rest = spaced(tail) + end;
        assert(rest.len() > 0 ==> text::is_white(rest[0])) by {
            if spaced(tail).len() > 0 {
                assert(rest[0] == ' ');
            } else if end.len() > 0 {
                assert(rest[0] == end[0]);
            }
        }
        assert(ws[0].len() > 0 && text::solid(ws[0]));
        assert(text::blank(seq![' ']));
        text::law_words_end_in_white_space(seq![' '], ws[0], rest);
        text::law_words_end_in_white_space(none, ws[0], rest);
        assert(spaced(ws) + end =~= seq![' '] + ws[0] + rest);
        assert((spaced(ws) + end).skip(1) =~= none + ws[0] + rest);
        assert(seq![ws[0]] + tail =~= ws);
    }
}

proof fn lemma_through_last(head: Seq<char>, tail: Seq<char>, c: char)
    requires
        !tail.contains(c),
    ensures
        through_last(head + seq![c] + tail, c) == head.len() + 1,
        through_last(tail, c) == 0,
    decreases tail.len(),
{
    let s = head + seq![c] + tail;
    if tail.len() == 0 {
        assert(s.last() == c);
    } else {
        let less = tail.drop_last();
        assert(tail.contains(tail[tail.len() - 1]));
        assert(!less.contains(c)) by {
            if less.contains(c) {
                let i = choose|i: int| 0 <= i < less.len() && less[i] == c;
                assert(tail[i] == c);
            }
        }
        lemma_through_last(head, less, c);
        assert(s.drop_last() =~= head + seq![c] + less);
        assert(s.last() == tail.last());
    }
}

/// The number that a word of a row stands for; zero, if there is no such word or
/// it is no number.
pub open spec fn number_at(ws: Seq<Seq<char>>, i: int) -> nat {
    if i < ws.len() {
        match text::parse_unsigned(ws[i], 0xFFFF_FFFF_FFFF_FFFF) {
            Some(n) => n,
            None => 0,
        }
    } else {
        0
    }
}

/// The ticks of a process are the sum of two numbers, those in the 12th and in the
/// 13th word after the last closing bracket: the time in user mode and the time in
/// the kernel. They depend on no other word, and on nothing before the bracket.
pub proof fn law_ticks_are_two_words(head: Seq<char>, ws: Seq<Seq<char>>, end: Seq<char>)
    requires
        ws.len() > 0,
        are_words(ws),
        text::blank(end),
        !(spaced(ws) + end).contains(')'),
    ensures
        stat_tail(head + seq![')'] + (spaced(ws) + end)) is Some,
        ticks_in(head + seq![')'] + (spaced(ws) + end)) == number_at(ws, 11) + number_at(ws, 12),
        stat_sound(head + seq![')'] + (spaced(ws) + end)) <==> number_at(ws, 11) + number_at(ws, 12)
            <= 0xFFFF_FFFF_FFFF_FFFF,
{
    let rest = spaced(ws) + end;
    let stat = head + seq![')'] + rest;
    lemma_spaced(ws, end);
    lemma_through_last(head, rest, ')');
    let p = head.len() as int + 1;
    assert(rest[0] == ' ');
    assert(stat[p] == rest[0]);
    assert(stat.skip(p + 1) =~= rest.skip(1));
}

/// Of a text that ends in its last bracket nothing can be read, nor if the
/// character right after the bracket takes more than one byte; otherwise the words
/// are those after that character.
pub proof fn law_fields_start_after_the_bracket(head: Seq<char>, c: char, rest: Seq<char>)
    requires
        c != ')',
        !rest.contains(')'),
    ensures
        stat_tail(head + seq![')']) is None,
        stat_tail(head + seq![')'] + (seq![c] + rest)) == (if (c as u32) < 128 {
            Some(rest)
        } else {
            None
        }),
{
    let none = Seq::<char>::empty();
    lemma_through_last(head, none, ')');
    assert(head + seq![')'] + none =~= head + seq![')']);
    let tail = seq![c] + rest;
    assert(!tail.contains(')')) by {
        if tail.contains(')') {
            let i = choose|i: int| 0 <= i < tail.len() && tail[i] == ')';
            assert(i > 0);
            assert(rest[i - 1] == ')');
        }
    }
    lemma_through_last(head, tail, ')');
    let stat = head + seq![')'] + tail;
    assert(stat[head.len() as int + 1] == c);
    assert(stat.skip(head.len() as int + 2) =~= rest);
}

/// Without a bracket, the first two bytes are skipped: two characters of one byte
/// each, or one of two.
pub proof fn law_fields_without_a_bracket(s: Seq<char>)
    requires
        !s.contains(')'),
    ensures
        s.len() == 0 ==> stat_tail(s) is None,
        s.len() > 0 && (s[0] as u32) >= 0x800 ==> stat_tail(s) is None,
        s.len() > 0 && 0x80 <= s[0] as u32 && (s[0] as u32) < 0x800 ==> stat_tail(s) == Some(s.skip(1)),
        s.len() > 0 && (s[0] as u32) < 0x80 ==> stat_tail(s) == (if s.len() > 1 && (s[1] as u32)
            < 0x80 {
            Some(s.skip(2))
        } else {
            None
        }),
{
    lemma_through_last(Seq::empty(), s, ')');
}

/// The read calls are the number in the first line that starts with `syscr: `,
/// whatever lines come before it and after it; zero, if there is no such line or
/// no number in it.
pub proof fn law_read_calls_are_read(ls: Seq<Seq<char>>, value: Seq<char>, rest: Seq<char>)
    requires
        text::are_lines(ls),
        forall|i: int| 0 <= i < ls.len() ==> !"syscr: "@.is_prefix_of(#[trigger] ls[i]),
        text::is_line("syscr: "@ + value),
    ensures
        syscr_in(text::ended(ls) + ("syscr: "@ + value + seq!['\n'] + rest)) == (
        match text::parse_unsigned(text::trim(value), 0xFFFF_FFFF_FFFF_FFFF) {
            Some(n) => n,
            None => 0,
        }),
        syscr_in(text::ended(ls)) == 0,
{
    text::law_line_is_found_in_a_text(ls, "syscr: "@, value, rest);
    assert(("syscr: "@ + value).skip("syscr: "@.len() as int) =~= value);
}

} // verus!
