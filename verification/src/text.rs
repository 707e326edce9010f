//! Text as sequences of characters: white space, lines, fields, words and
//! decimal numbers.

use vstd::prelude::*;
use vstd::slice::slice_subrange;

verus! {

// ---------------------------------------------------------------------------
// What the text means
// ---------------------------------------------------------------------------

/// The characters with the Unicode property `White_Space`.
pub open spec fn is_white(c: char) -> bool {
    let n = c as u32;
    ||| 0x09 <= n <= 0x0D
    ||| n == 0x20
    ||| n == 0x85
    ||| n == 0xA0
    ||| n == 0x1680
    ||| 0x2000 <= n <= 0x200A
    ||| n == 0x2028
    ||| n == 0x2029
    ||| n == 0x202F
    ||| n == 0x205F
    ||| n == 0x3000
}

/// `s` without the white space at its front.
pub open spec fn trim_start(s: Seq<char>) -> Seq<char>
    decreases s.len(),
{
    if s.len() > 0 && is_white(s[0]) {
        trim_start(s.drop_first())
    } else {
        s
    }
}

/// `s` without the white space at its end.
pub open spec fn trim_end(s: Seq<char>) -> Seq<char>
    decreases s.len(),
{
    if s.len() > 0 && is_white(s.last()) {
        trim_end(s.drop_last())
    } else {
        s
    }
}

/// `s` without the white space at both its ends.
pub open spec fn trim(s: Seq<char>) -> Seq<char> {
    trim_end(trim_start(s))
}

/// How many characters of `s` come before the first `c`; all, if there is none.
pub open spec fn before(s: Seq<char>, c: char) -> nat
    decreases s.len(),
{
    if s.len() == 0 || s[0] == c {
        0
    } else {
        1 + before(s.drop_first(), c)
    }
}

/// How many characters of `s` come before its first white space.
pub open spec fn before_white(s: Seq<char>) -> nat
    decreases s.len(),
{
    if s.len() == 0 || is_white(s[0]) {
        0
    } else {
        1 + before_white(s.drop_first())
    }
}

/// A line whose line feed is gone also loses the carriage return before it.
pub open spec fn strip_cr(s: Seq<char>) -> Seq<char> {
    if s.len() > 0 && s.last() == '\r' {
        s.drop_last()
    } else {
        s
    }
}

/// The lines of a text. A line ends in a line feed, or a carriage return and a
/// line feed; the last one may do without.
pub open spec fn lines(s: Seq<char>) -> Seq<Seq<char>>
    decreases s.len(),
    via lines_decreases
{
    if s.len() == 0 {
        Seq::empty()
    } else if before(s, '\n') == s.len() {
        seq![s]
    } else {
        let n = before(s, '\n') as int;
        seq![strip_cr(s.take(n))] + lines(s.skip(n + 1))
    }
}

#[via_fn]
proof fn lines_decreases(s: Seq<char>) {
    lemma_before(s, '\n');
}

/// The fields of `s` between separators, but at most `n` of them: the last one
/// holds the rest, separators and all.
pub open spec fn split_at_most(s: Seq<char>, sep: char, n: nat) -> Seq<Seq<char>>
    decreases n,
{
    if n <= 1 || before(s, sep) >= s.len() {
        seq![s]
    } else {
        let k = before(s, sep) as int;
        seq![s.take(k)] + split_at_most(s.skip(k + 1), sep, (n - 1) as nat)
    }
}

/// The fields of `s` between separators. There is always at least one.
pub open spec fn split(s: Seq<char>, sep: char) -> Seq<Seq<char>> {
    split_at_most(s, sep, s.len() + 1)
}

/// The words of `s`: the longest pieces without white space.
pub open spec fn words(s: Seq<char>) -> Seq<Seq<char>>
    decreases s.len(),
    via words_decreases
{
    let t = trim_start(s);
    if t.len() == 0 {
        Seq::empty()
    } else {
        let k = before_white(t) as int;
        seq![t.take(k)] + words(t.skip(k))
    }
}

#[via_fn]
proof fn words_decreases(s: Seq<char>) {
    lemma_trim_start(s);
    lemma_before_white(trim_start(s));
}

/// The first line that starts with `prefix`.
pub open spec fn line_with(ls: Seq<Seq<char>>, prefix: Seq<char>) -> Option<Seq<char>>
    decreases ls.len(),
{
    if ls.len() == 0 {
        None
    } else if prefix.is_prefix_of(ls[0]) {
        Some(ls[0])
    } else {
        line_with(ls.drop_first(), prefix)
    }
}

/// Whether `part` stands somewhere in `s`.
pub open spec fn has_part(s: Seq<char>, part: Seq<char>) -> bool {
    exists|k: int| 0 <= k <= s.len() && part.is_prefix_of(#[trigger] s.skip(k))
}

pub open spec fn is_digit(c: char) -> bool {
    '0' <= c <= '9'
}

pub open spec fn all_digits(s: Seq<char>) -> bool {
    forall|i: int| 0 <= i < s.len() ==> is_digit(#[trigger] s[i])
}

/// The number that a row of digits stands for.
pub open spec fn decimal(s: Seq<char>) -> nat
    decreases s.len(),
{
    if s.len() == 0 {
        0
    } else {
        decimal(s.drop_last()) * 10 + (s.last() as u32 - '0' as u32) as nat
    }
}

/// Reads an unsigned number of at most `max`: digits, with or without a plus
/// sign before them.
pub open spec fn parse_unsigned(s: Seq<char>, max: nat) -> Option<nat> {
    let body = if s.len() > 0 && s[0] == '+' {
        s.drop_first()
    } else {
        s
    };
    if body.len() > 0 && all_digits(body) && decimal(body) <= max {
        Some(decimal(body))
    } else {
        None
    }
}

/// The digits of a number, without leading zeros.
pub open spec fn digits_of(n: nat) -> Seq<char>
    decreases n,
{
    if n < 10 {
        seq![digit_char(n)]
    } else {
        digits_of(n / 10).push(digit_char(n % 10))
    }
}

pub open spec fn digit_char(n: nat) -> char {
    ('0' as u32 + n) as char
}

/// A vector of character slices, each by what it holds.
pub open spec fn views(v: Seq<&[char]>) -> Seq<Seq<char>> {
    v.map_values(|x: &[char]| x@)
}

// ---------------------------------------------------------------------------
// Facts about it
// ---------------------------------------------------------------------------

pub proof fn lemma_before(s: Seq<char>, c: char)
    ensures
        before(s, c) <= s.len(),
        forall|i: int| 0 <= i < before(s, c) ==> s[i] != c,
        before(s, c) < s.len() ==> s[before(s, c) as int] == c,
    decreases s.len(),
{
    if s.len() > 0 && s[0] != c {
        let t = s.drop_first();
        lemma_before(t, c);
        assert forall|i: int| 0 <= i < before(s, c) implies s[i] != c by {
            if i > 0 {
                assert(t[i - 1] == s[i]);
            }
        }
    }
}

/// `before` is the only place with its property.
pub proof fn lemma_before_is(s: Seq<char>, c: char, k: int)
    requires
        0 <= k <= s.len(),
        forall|i: int| 0 <= i < k ==> s[i] != c,
        k < s.len() ==> s[k] == c,
    ensures
        before(s, c) == k,
{
    lemma_before(s, c);
    let b = before(s, c) as int;
    if b < k {
        assert(s[b] != c);
    } else if k < b {
        assert(s[k] != c);
    }
}

pub proof fn lemma_before_white(s: Seq<char>)
    ensures
        before_white(s) <= s.len(),
        forall|i: int| 0 <= i < before_white(s) ==> !is_white(s[i]),
        before_white(s) < s.len() ==> is_white(s[before_white(s) as int]),
        s.len() > 0 && !is_white(s[0]) ==> before_white(s) > 0,
    decreases s.len(),
{
    if s.len() > 0 && !is_white(s[0]) {
        let t = s.drop_first();
        lemma_before_white(t);
        assert forall|i: int| 0 <= i < before_white(s) implies !is_white(s[i]) by {
            if i > 0 {
                assert(t[i - 1] == s[i]);
            }
        }
    }
}

pub proof fn lemma_trim_start(s: Seq<char>)
    ensures
        trim_start(s).len() <= s.len(),
        trim_start(s) == s.skip(s.len() - trim_start(s).len()),
        trim_start(s).len() > 0 ==> !is_white(trim_start(s)[0]),
    decreases s.len(),
{
    if s.len() > 0 && is_white(s[0]) {
        let t = s.drop_first();
        lemma_trim_start(t);
        assert(t.skip(t.len() - trim_start(t).len()) =~= s.skip(s.len() - trim_start(s).len()));
    } else {
        assert(s.skip(0) =~= s);
    }
}

/// White space at the end makes no difference to what trimming leaves.
pub proof fn lemma_trim_white_end(s: Seq<char>)
    requires
        s.len() > 0,
        is_white(s.last()),
    ensures
        trim(s.drop_last()) == trim(s),
    decreases s.len(),
{
    let t = s.drop_last();
    if is_white(s[0]) {
        if s.len() == 1 {
            assert(s.drop_first() =~= t);
        } else {
            lemma_trim_white_end(s.drop_first());
            assert(t.drop_first() =~= s.drop_first().drop_last());
        }
    }
}

/// A text that starts with a line and its line feed has that line first.
pub proof fn lemma_first_line(a: Seq<char>, b: Seq<char>)
    requires
        !a.contains('\n'),
    ensures
        lines(a + seq!['\n'] + b) == seq![strip_cr(a)] + lines(b),
{
    let s = a + seq!['\n'] + b;
    assert forall|i: int| 0 <= i < a.len() implies s[i] != '\n' by {
        assert(s[i] == a[i]);
        assert(a.contains(a[i]));
    }
    lemma_before_is(s, '\n', a.len() as int);
    assert(s.take(a.len() as int) =~= a);
    assert(s.skip(a.len() as int + 1) =~= b);
}

/// The first line that starts with `prefix`, where the first of all does not.
pub proof fn lemma_line_further_on(l: Seq<char>, ls: Seq<Seq<char>>, prefix: Seq<char>)
    ensures
        !prefix.is_prefix_of(l) ==> line_with(seq![l] + ls, prefix) == line_with(ls, prefix),
        prefix.is_prefix_of(l) ==> line_with(seq![l] + ls, prefix) == Some(l),
{
    let all = seq![l] + ls;
    assert(all[0] == l);
    assert(all.drop_first() =~= ls);
}

// ---------------------------------------------------------------------------
// Characters and strings
// ---------------------------------------------------------------------------

/// `String::push` adds one character at the end.
pub assume_specification[ String::push ](s: &mut String, c: char)
    ensures
        final(s)@ == old(s)@.push(c),
;

/// The characters of a string, one by one.
pub fn chars_of(s: &str) -> (r: Vec<char>)
    ensures
        r@ == s@,
{
    let mut out: Vec<char> = Vec::new();
    for c in it: s.chars()
        invariant
            it.seq() == s@,
            out@ == s@.take(it.index() as int),
    {
        out.push(c);
        assert(s@.take(it.index() as int).push(c) =~= s@.take(it.index() + 1));
    }
    assert(s@.take(s@.len() as int) =~= s@);
    out
}

/// Adds characters at the end of a string.
pub fn push_chars(out: &mut String, cs: &[char])
    ensures
        final(out)@ == old(out)@ + cs@,
{
    let mut i: usize = 0;
    while i < cs.len()
        invariant
            i <= cs@.len(),
            out@ == old(out)@ + cs@.take(i as int),
        decreases cs.len() - i,
    {
        out.push(cs[i]);
        assert(old(out)@ + cs@.take(i as int).push(cs@[i as int]) =~= (old(out)@ + cs@.take(
            i as int,
        )).push(cs@[i as int]));
        assert(cs@.take(i as int).push(cs@[i as int]) =~= cs@.take(i + 1));
        i = i + 1;
    }
    assert(cs@.take(cs@.len() as int) =~= cs@);
}

/// The string made of some characters.
pub fn string_of(cs: &[char]) -> (r: String)
    ensures
        r@ == cs@,
{
    let mut out = String::new();
    push_chars(&mut out, cs);
    assert(Seq::<char>::empty() + cs@ =~= cs@);
    out
}

/// Whether two rows of characters are the same.
pub fn same(a: &[char], b: &[char]) -> (r: bool)
    ensures
        r == (a@ == b@),
{
    if a.len() != b.len() {
        return false;
    }
    let mut i: usize = 0;
    while i < a.len()
        invariant
            i <= a@.len(),
            a@.len() == b@.len(),
            forall|j: int| 0 <= j < i ==> a@[j] == b@[j],
        decreases a.len() - i,
    {
        if a[i] != b[i] {
            return false;
        }
        i = i + 1;
    }
    assert(a@ =~= b@);
    true
}

/// Whether `s` starts with `prefix`.
pub fn starts_with(s: &[char], prefix: &str) -> (r: bool)
    ensures
        r == prefix@.is_prefix_of(s@),
{
    let p = chars_of(prefix);
    if p.len() > s.len() {
        return false;
    }
    let head = slice_subrange(s, 0, p.len());
    let r = same(head, p.as_slice());
    assert(p@.is_prefix_of(s@) ==> head@ =~= p@);
    r
}

/// Whether `part` stands somewhere in `s`.
pub fn contains_part(s: &str, part: &str) -> (r: bool)
    ensures
        r == has_part(s@, part@),
{
    let cs = chars_of(s);
    let mut k: usize = 0;
    loop
        invariant
            k <= cs@.len(),
            cs@ == s@,
            forall|j: int| 0 <= j < k ==> !part@.is_prefix_of(#[trigger] s@.skip(j)),
        decreases cs@.len() - k,
    {
        let rest = slice_subrange(cs.as_slice(), k, cs.len());
        assert(rest@ =~= s@.skip(k as int));
        if starts_with(rest, part) {
            return true;
        }
        if k == cs.len() {
            return false;
        }
        k = k + 1;
    }
}

// ---------------------------------------------------------------------------
// White space, lines, fields, words
// ---------------------------------------------------------------------------

/// Whether a character is white space.
pub fn white(c: char) -> (r: bool)
    ensures
        r == is_white(c),
{
    let n: u32 = c as u32;
    (0x09 <= n && n <= 0x0D) || n == 0x20 || n == 0x85 || n == 0xA0 || n == 0x1680 || (0x2000 <= n
        && n <= 0x200A) || n == 0x2028 || n == 0x2029 || n == 0x202F || n == 0x205F || n == 0x3000
}

/// Cuts the white space off the front.
pub fn trim_front<'a>(s: &'a [char]) -> (r: &'a [char])
    ensures
        r@ == trim_start(s@),
{
    let mut i: usize = 0;
    assert(s@.skip(0) =~= s@);
    while i < s.len() && white(s[i])
        invariant
            i <= s@.len(),
            trim_start(s@) == trim_start(s@.skip(i as int)),
        decreases s.len() - i,
    {
        assert(s@.skip(i as int).drop_first() =~= s@.skip(i + 1));
        i = i + 1;
    }
    let r = slice_subrange(s, i, s.len());
    assert(r@ =~= s@.skip(i as int));
    r
}

/// Cuts the white space off the end.
pub fn trim_back<'a>(s: &'a [char]) -> (r: &'a [char])
    ensures
        r@ == trim_end(s@),
{
    let mut i: usize = s.len();
    assert(s@.take(i as int) =~= s@);
    while i > 0 && white(s[i - 1])
        invariant
            i <= s@.len(),
            trim_end(s@) == trim_end(s@.take(i as int)),
        decreases i,
    {
        assert(s@.take(i as int).drop_last() =~= s@.take(i - 1));
        i = i - 1;
    }
    let r = slice_subrange(s, 0, i);
    assert(r@ =~= s@.take(i as int));
    r
}

/// Cuts the white space off both ends.
pub fn trimmed<'a>(s: &'a [char]) -> (r: &'a [char])
    ensures
        r@ == trim(s@),
{
    trim_back(trim_front(s))
}

/// Where the first `c` stands; the length of `s`, if there is none.
pub fn find(s: &[char], c: char) -> (r: usize)
    ensures
        r == before(s@, c),
{
    let mut i: usize = 0;
    while i < s.len() && s[i] != c
        invariant
            i <= s@.len(),
            forall|j: int| 0 <= j < i ==> s@[j] != c,
        decreases s.len() - i,
    {
        i = i + 1;
    }
    proof {
        lemma_before_is(s@, c, i as int);
    }
    i
}

/// Cuts a text into its lines.
pub fn line_list<'a>(s: &'a [char]) -> (r: Vec<&'a [char]>)
    ensures
        views(r@) == lines(s@),
{
    let mut out: Vec<&'a [char]> = Vec::new();
    let mut at: usize = 0;
    assert(s@.skip(0) =~= s@);
    assert(views(out@) + lines(s@) =~= lines(s@));
    while at < s.len()
        invariant
            at <= s@.len(),
            views(out@) + lines(s@.skip(at as int)) == lines(s@),
        decreases s.len() - at,
    {
        let rest = slice_subrange(s, at, s.len());
        assert(rest@ =~= s@.skip(at as int));
        let ghost done = views(out@);
        let n: usize = find(rest, '\n');
        proof {
            lemma_before(rest@, '\n');
        }
        if n == rest.len() {
            out.push(rest);
            assert(views(out@) =~= done.push(rest@));
            assert(s@.skip(s@.len() as int) =~= Seq::<char>::empty());
            assert(lines(rest@) =~= seq![rest@]);
            assert(done.push(rest@) + lines(Seq::<char>::empty()) =~= done + lines(rest@));
            at = s.len();
        } else {
            let raw = slice_subrange(rest, 0, n);
            assert(raw@ =~= rest@.take(n as int));
            let line = if n > 0 && raw[n - 1] == '\r' {
                slice_subrange(raw, 0, n - 1)
            } else {
                raw
            };
            assert(line@ =~= strip_cr(rest@.take(n as int)));
            out.push(line);
            assert(views(out@) =~= done.push(line@));
            assert(rest@.skip(n + 1) =~= s@.skip(at + n + 1));
            assert(done.push(line@) + lines(rest@.skip(n + 1)) =~= done + (seq![line@] + lines(
                rest@.skip(n + 1),
            )));
            at = at + n + 1;
        }
    }
    assert(s@.skip(at as int) =~= Seq::<char>::empty());
    assert(views(out@) + lines(s@.skip(at as int)) =~= views(out@));
    out
}

/// Cuts `s` at separators, into at most `limit` fields.
pub fn field_list<'a>(s: &'a [char], sep: char, limit: usize) -> (r: Vec<&'a [char]>)
    requires
        limit >= 1,
    ensures
        views(r@) == split_at_most(s@, sep, limit as nat),
{
    let mut out: Vec<&'a [char]> = Vec::new();
    let mut rest: &'a [char] = s;
    let mut left: usize = limit;
    let mut n: usize = find(rest, sep);
    assert(views(out@) + split_at_most(s@, sep, limit as nat) =~= split_at_most(
        s@,
        sep,
        limit as nat,
    ));
    while left > 1 && n < rest.len()
        invariant
            left >= 1,
            n == before(rest@, sep),
            views(out@) + split_at_most(rest@, sep, left as nat) == split_at_most(
                s@,
                sep,
                limit as nat,
            ),
        decreases left,
    {
        let ghost done = views(out@);
        let ghost old_rest = rest@;
        let field = slice_subrange(rest, 0, n);
        assert(field@ =~= old_rest.take(n as int));
        out.push(field);
        assert(views(out@) =~= done.push(field@));
        rest = slice_subrange(rest, n + 1, rest.len());
        assert(rest@ =~= old_rest.skip(n + 1));
        left = left - 1;
        n = find(rest, sep);
        assert(done.push(field@) + split_at_most(rest@, sep, left as nat) =~= done + (seq![field@]
            + split_at_most(rest@, sep, left as nat)));
    }
    let ghost done = views(out@);
    out.push(rest);
    assert(views(out@) =~= done.push(rest@));
    assert(done.push(rest@) =~= done + seq![rest@]);
    out
}

/// Cuts `s` at every separator.
pub fn split_list<'a>(s: &'a [char], sep: char) -> (r: Vec<&'a [char]>)
    ensures
        views(r@) == split(s@, sep),
{
    let mut out: Vec<&'a [char]> = Vec::new();
    let mut rest: &'a [char] = s;
    let ghost mut left: nat = s@.len() + 1;
    let mut n: usize = find(rest, sep);
    assert(views(out@) + split(s@, sep) =~= split(s@, sep));
    while n < rest.len()
        invariant
            left > rest@.len(),
            n == before(rest@, sep),
            views(out@) + split_at_most(rest@, sep, left) == split(s@, sep),
        decreases rest@.len(),
    {
        let ghost done = views(out@);
        let ghost old_rest = rest@;
        let field = slice_subrange(rest, 0, n);
        assert(field@ =~= old_rest.take(n as int));
        out.push(field);
        assert(views(out@) =~= done.push(field@));
        rest = slice_subrange(rest, n + 1, rest.len());
        assert(rest@ =~= old_rest.skip(n + 1));
        proof {
            left = (left - 1) as nat;
        }
        n = find(rest, sep);
        assert(done.push(field@) + split_at_most(rest@, sep, left) =~= done + (seq![field@]
            + split_at_most(rest@, sep, left)));
    }
    let ghost done = views(out@);
    out.push(rest);
    assert(views(out@) =~= done.push(rest@));
    assert(done.push(rest@) =~= done + seq![rest@]);
    out
}

/// Cuts `s` into words.
pub fn word_list<'a>(s: &'a [char]) -> (r: Vec<&'a [char]>)
    ensures
        views(r@) == words(s@),
{
    let mut out: Vec<&'a [char]> = Vec::new();
    let mut rest: &'a [char] = trim_front(s);
    assert(views(out@) + words(s@) =~= words(s@));
    proof {
        lemma_trim_start(s@);
        lemma_trim_start_twice(s@);
    }
    while rest.len() > 0
        invariant
            views(out@) + words(rest@) == words(s@),
            trim_start(rest@) == rest@,
        decreases rest@.len(),
    {
        let ghost done = views(out@);
        let ghost old_rest = rest@;
        let mut k: usize = 0;
        while k < rest.len() && !white(rest[k])
            invariant
                k <= rest@.len(),
                forall|j: int| 0 <= j < k ==> !is_white(rest@[j]),
            decreases rest.len() - k,
        {
            k = k + 1;
        }
        proof {
            lemma_before_white_is(rest@, k as int);
            lemma_trim_start(rest@);
            lemma_before_white(rest@);
        }
        let word = slice_subrange(rest, 0, k);
        assert(word@ =~= old_rest.take(k as int));
        out.push(word);
        assert(views(out@) =~= done.push(word@));
        let tail = slice_subrange(rest, k, rest.len());
        assert(tail@ =~= old_rest.skip(k as int));
        rest = trim_front(tail);
        proof {
            lemma_trim_start(tail@);
            lemma_trim_start_twice(tail@);
            assert(done.push(word@) + words(tail@) =~= done + (seq![word@] + words(tail@)));
        }
    }
    assert(views(out@) + words(rest@) =~= views(out@));
    out
}

/// Trimming a front that is already trimmed changes nothing, nor the words.
proof fn lemma_trim_start_twice(s: Seq<char>)
    ensures
        trim_start(trim_start(s)) == trim_start(s),
        words(trim_start(s)) == words(s),
{
    lemma_trim_start(s);
}

proof fn lemma_before_white_is(s: Seq<char>, k: int)
    requires
        0 <= k <= s.len(),
        forall|i: int| 0 <= i < k ==> !is_white(s[i]),
        k < s.len() ==> is_white(s[k]),
    ensures
        before_white(s) == k,
{
    lemma_before_white(s);
    let b = before_white(s) as int;
    if b < k {
        assert(!is_white(s[b]));
    } else if k < b {
        assert(!is_white(s[k]));
    }
}

/// The first line of a text that starts with `prefix`.
pub fn find_line<'a>(s: &'a [char], prefix: &str) -> (r: Option<&'a [char]>)
    ensures
        r is Some <==> line_with(lines(s@), prefix@) is Some,
        r matches Some(l) ==> line_with(lines(s@), prefix@) == Some(l@),
        r matches Some(l) ==> prefix@.is_prefix_of(l@),
{
    let ls = line_list(s);
    let ghost all = lines(s@);
    let mut i: usize = 0;
    assert(all.skip(0) =~= all);
    while i < ls.len()
        invariant
            i <= ls@.len(),
            views(ls@) == all,
            all == lines(s@),
            line_with(all, prefix@) == line_with(all.skip(i as int), prefix@),
        decreases ls.len() - i,
    {
        assert(all[i as int] == ls@[i as int]@);
        assert(all.skip(i as int)[0] == all[i as int]);
        if starts_with(ls[i], prefix) {
            return Some(ls[i]);
        }
        assert(all.skip(i as int).drop_first() =~= all.skip(i + 1));
        i = i + 1;
    }
    assert(all.skip(i as int).len() == 0);
    None
}

// ---------------------------------------------------------------------------
// Numbers
// ---------------------------------------------------------------------------

/// Reads an unsigned number of at most `max`.
pub fn parse_number(s: &[char], max: u64) -> (r: Option<u64>)
    ensures
        r is Some <==> parse_unsigned(s@, max as nat) is Some,
        r matches Some(n) ==> parse_unsigned(s@, max as nat) == Some(n as nat),
{
    let body = if s.len() > 0 && s[0] == '+' {
        slice_subrange(s, 1, s.len())
    } else {
        s
    };
    assert(body@ =~= if s@.len() > 0 && s@[0] == '+' {
        s@.drop_first()
    } else {
        s@
    });
    if body.len() == 0 {
        return None;
    }
    let mut value: u64 = 0;
    let mut i: usize = 0;
    while i < body.len()
        invariant
            i <= body@.len(),
            body@ == (if s@.len() > 0 && s@[0] == '+' {
                s@.drop_first()
            } else {
                s@
            }),
            value <= max,
            value == decimal(body@.take(i as int)),
            forall|j: int| 0 <= j < i ==> is_digit(#[trigger] body@[j]),
        decreases body.len() - i,
    {
        let c: char = body[i];
        if c < '0' || c > '9' {
            assert(!is_digit(body@[i as int]));
            return None;
        }
        let d: u64 = c as u64 - '0' as u64;
        let ghost next = body@.take(i + 1);
        assert(next.drop_last() =~= body@.take(i as int));
        assert(decimal(next) == decimal(body@.take(i as int)) * 10 + d);
        if value > (u64::MAX - d) / 10 || value * 10 + d > max {
            proof {
                lemma_decimal_grows(body@, i + 1);
            }
            return None;
        }
        value = value * 10 + d;
        i = i + 1;
    }
    assert(body@.take(i as int) =~= body@);
    Some(value)
}

/// More digits make no smaller number.
proof fn lemma_decimal_grows(s: Seq<char>, k: int)
    requires
        0 <= k <= s.len(),
    ensures
        decimal(s.take(k)) <= decimal(s),
    decreases s.len() - k,
{
    if k < s.len() {
        assert(s.take(k + 1).drop_last() =~= s.take(k));
        lemma_decimal_grows(s, k + 1);
    } else {
        assert(s.take(k) =~= s);
    }
}

/// Writes a number in decimal at the end of a string.
pub fn push_number(out: &mut String, n: u64)
    ensures
        final(out)@ == old(out)@ + digits_of(n as nat),
    decreases n,
{
    let ghost before_it = out@;
    let d: u64 = n % 10;
    if n >= 10 {
        push_number(out, n / 10);
    }
    let c: char = digit(d as u8);
    out.push(c);
    if n >= 10 {
        assert((before_it + digits_of((n / 10) as nat)).push(c) =~= before_it + digits_of(
            (n / 10) as nat,
        ).push(c));
    } else {
        assert(before_it.push(c) =~= before_it + seq![c]);
    }
}

/// The character of a digit.
fn digit(d: u8) -> (c: char)
    requires
        d < 10,
    ensures
        c == digit_char(d as nat),
{
    (48u8 + d) as char
}

/// Reading back what was written of a number gives the number.
pub proof fn law_number_survives(n: nat, max: nat)
    requires
        n <= max,
    ensures
        parse_unsigned(digits_of(n), max) == Some(n),
        all_digits(digits_of(n)),
        digits_of(n).len() > 0,
{
    lemma_digits(n);
    assert(is_digit(digits_of(n)[0]));
}

proof fn lemma_digits(n: nat)
    ensures
        all_digits(digits_of(n)),
        digits_of(n).len() > 0,
        decimal(digits_of(n)) == n,
    decreases n,
{
    if n < 10 {
        let s = digits_of(n);
        assert(s.drop_last() =~= Seq::<char>::empty());
        assert(decimal(s.drop_last()) == 0);
    } else {
        lemma_digits(n / 10);
        let s = digits_of(n);
        assert(s.drop_last() =~= digits_of(n / 10));
    }
}

// ---------------------------------------------------------------------------
// Laws
// ---------------------------------------------------------------------------

/// Whether a text is made of white space only.
pub open spec fn blank(s: Seq<char>) -> bool {
    forall|i: int| 0 <= i < s.len() ==> is_white(#[trigger] s[i])
}

/// Whether a text holds no white space.
pub open spec fn solid(s: Seq<char>) -> bool {
    forall|i: int| 0 <= i < s.len() ==> !is_white(#[trigger] s[i])
}

/// Some lines, each with its line feed.
pub open spec fn ended(ls: Seq<Seq<char>>) -> Seq<char>
    decreases ls.len(),
{
    if ls.len() == 0 {
        Seq::empty()
    } else {
        ls[0] + seq!['\n'] + ended(ls.drop_first())
    }
}

/// Whether some lines can stand in a text as they are: none holds a line feed or
/// ends in a carriage return.
pub open spec fn are_lines(ls: Seq<Seq<char>>) -> bool {
    forall|i: int| 0 <= i < ls.len() ==> is_line(#[trigger] ls[i])
}

/// Whether a line can stand in a text as it is.
pub open spec fn is_line(l: Seq<char>) -> bool {
    !l.contains('\n') && (l.len() > 0 ==> l.last() != '\r')
}

proof fn lemma_trim_start_of(a: Seq<char>, r: Seq<char>)
    requires
        blank(a),
        r.len() > 0 ==> !is_white(r[0]),
    ensures
        trim_start(a + r) == r,
    decreases a.len(),
{
    let s = a + r;
    if a.len() == 0 {
        assert(s =~= r);
    } else {
        assert(s[0] == a[0]);
        assert(is_white(a[0]));
        let b = a.drop_first();
        assert(blank(b)) by {
            assert forall|i: int| 0 <= i < b.len() implies is_white(#[trigger] b[i]) by {
                assert(b[i] == a[i + 1]);
            }
        }
        lemma_trim_start_of(b, r);
        assert(s.drop_first() =~= b + r);
    }
}

proof fn lemma_trim_end_of(r: Seq<char>, b: Seq<char>)
    requires
        blank(b),
        r.len() > 0 ==> !is_white(r.last()),
    ensures
        trim_end(r + b) == r,
    decreases b.len(),
{
    let s = r + b;
    if b.len() == 0 {
        assert(s =~= r);
    } else {
        assert(s.last() == b.last());
        assert(is_white(b[b.len() - 1]));
        let c = b.drop_last();
        assert(blank(c)) by {
            assert forall|i: int| 0 <= i < c.len() implies is_white(#[trigger] c[i]) by {
                assert(c[i] == b[i]);
            }
        }
        lemma_trim_end_of(r, c);
        assert(s.drop_last() =~= r + c);
    }
}

/// Trimming takes the white space off both ends and nothing else.
pub proof fn law_trimming_takes_the_ends(a: Seq<char>, m: Seq<char>, b: Seq<char>)
    requires
        blank(a),
        blank(b),
        m.len() > 0 ==> !is_white(m[0]) && !is_white(m.last()),
    ensures
        trim(a + m + b) == m,
{
    if m.len() > 0 {
        assert(a + m + b =~= a + (m + b));
        lemma_trim_start_of(a, m + b);
        lemma_trim_end_of(m, b);
    } else {
        let s = a + m + b;
        assert(blank(s)) by {
            assert forall|i: int| 0 <= i < s.len() implies is_white(#[trigger] s[i]) by {
                if i < a.len() {
                    assert(s[i] == a[i]);
                } else {
                    assert(s[i] == b[i - a.len()]);
                }
            }
        }
        assert(s + Seq::<char>::empty() =~= s);
        lemma_trim_start_of(s, Seq::empty());
        assert(m =~= Seq::<char>::empty());
    }
}

/// A text without a line feed is one line, unless it is empty; a line feed ends
/// a line, together with a carriage return right before it, and the lines of the
/// rest follow.
pub proof fn law_lines_end_in_feeds(a: Seq<char>, b: Seq<char>)
    requires
        !a.contains('\n'),
    ensures
        a.len() == 0 ==> lines(a).len() == 0,
        a.len() > 0 ==> lines(a) == seq![a],
        lines(a + seq!['\n'] + b) == seq![
            if a.len() > 0 && a[a.len() - 1] == '\r' {
                a.take(a.len() - 1)
            } else {
                a
            },
        ] + lines(b),
{
    assert forall|i: int| 0 <= i < a.len() implies a[i] != '\n' by {
        assert(a.contains(a[i]));
    }
    lemma_before_is(a, '\n', a.len() as int);
    lemma_first_line(a, b);
    if a.len() > 0 {
        assert(a.drop_last() =~= a.take(a.len() - 1));
    }
}

/// Lines that were written one after the other are read one after the other, and
/// what comes after them is read on.
pub proof fn law_written_lines_are_read(ls: Seq<Seq<char>>, rest: Seq<char>)
    requires
        are_lines(ls),
    ensures
        lines(ended(ls) + rest) == ls + lines(rest),
    decreases ls.len(),
{
    if ls.len() == 0 {
        assert(ended(ls) + rest =~= rest);
        assert(ls + lines(rest) =~= lines(rest));
    } else {
        let tail = ls.drop_first();
        assert(are_lines(tail)) by {
            assert forall|i: int| 0 <= i < tail.len() implies is_line(#[trigger] tail[i]) by {
                assert(tail[i] == ls[i + 1]);
            }
        }
        law_written_lines_are_read(tail, rest);
        assert(is_line(ls[0]));
        lemma_first_line(ls[0], ended(tail) + rest);
        assert(ended(ls) + rest =~= ls[0] + seq!['\n'] + (ended(tail) + rest));
        assert(seq![ls[0]] + (tail + lines(rest)) =~= ls + lines(rest));
    }
}

/// Without a separator there is one field. A separator ends a field, as long as
/// more than one may come, and the fields of the rest follow.
pub proof fn law_fields_end_in_separators(a: Seq<char>, sep: char, b: Seq<char>, n: nat)
    requires
        !a.contains(sep),
        n > 1,
    ensures
        split_at_most(a, sep, n) == seq![a],
        split_at_most(b, sep, 1) == seq![b],
        split_at_most(a + seq![sep] + b, sep, n) == seq![a] + split_at_most(b, sep, (n - 1) as nat),
        split(a, sep) == seq![a],
        split(a + seq![sep] + b, sep) == seq![a] + split(b, sep),
{
    let s = a + seq![sep] + b;
    assert forall|i: int| 0 <= i < a.len() implies a[i] != sep && s[i] != sep by {
        assert(s[i] == a[i]);
        assert(a.contains(a[i]));
    }
    lemma_before_is(a, sep, a.len() as int);
    lemma_before_is(s, sep, a.len() as int);
    assert(s.take(a.len() as int) =~= a);
    assert(s.skip(a.len() as int + 1) =~= b);
    lemma_enough_fields(b, sep, s.len(), b.len() + 1);
}

proof fn lemma_enough_fields(s: Seq<char>, sep: char, m: nat, n: nat)
    requires
        m > s.len(),
        n > s.len(),
    ensures
        split_at_most(s, sep, m) == split_at_most(s, sep, n),
    decreases s.len(),
{
    lemma_before(s, sep);
    if before(s, sep) < s.len() {
        let rest = s.skip(before(s, sep) as int + 1);
        lemma_enough_fields(rest, sep, (m - 1) as nat, (n - 1) as nat);
    }
}

/// White space holds no word. After white space, what goes up to the next white
/// space is a word, and the words of the rest follow.
pub proof fn law_words_end_in_white_space(a: Seq<char>, w: Seq<char>, rest: Seq<char>)
    requires
        blank(a),
        w.len() > 0,
        solid(w),
        rest.len() > 0 ==> is_white(rest[0]),
    ensures
        words(a).len() == 0,
        words(a + w + rest) == seq![w] + words(rest),
{
    assert(a + Seq::<char>::empty() =~= a);
    lemma_trim_start_of(a, Seq::empty());
    assert(!is_white(w[0]));
    let t = w + rest;
    assert(a + w + rest =~= a + t);
    lemma_trim_start_of(a, t);
    assert forall|i: int| 0 <= i < w.len() implies !is_white(t[i]) by {
        assert(t[i] == w[i]);
    }
    lemma_before_white_is(t, w.len() as int);
    assert(t.take(w.len() as int) =~= w);
    assert(t.skip(w.len() as int) =~= rest);
}

/// The line that is found is the first one that starts with the prefix; if none
/// does, none is found.
pub proof fn law_first_line_is_found(ls: Seq<Seq<char>>, prefix: Seq<char>, i: int)
    ensures
        0 <= i < ls.len() && prefix.is_prefix_of(ls[i]) && (forall|j: int|
            0 <= j < i ==> !prefix.is_prefix_of(#[trigger] ls[j])) ==> line_with(ls, prefix)
            == Some(ls[i]),
        (forall|j: int| 0 <= j < ls.len() ==> !prefix.is_prefix_of(#[trigger] ls[j]))
            ==> line_with(ls, prefix) is None,
    decreases ls.len(),
{
    if ls.len() > 0 {
        let tail = ls.drop_first();
        law_first_line_is_found(tail, prefix, i - 1);
        assert forall|j: int| 0 <= j < tail.len() implies tail[j] == #[trigger] ls[j + 1] by {}
        if forall|j: int| 0 <= j < ls.len() ==> !prefix.is_prefix_of(#[trigger] ls[j]) {
            assert forall|j: int| 0 <= j < tail.len() implies !prefix.is_prefix_of(
                #[trigger] tail[j],
            ) by {
                assert(tail[j] == ls[j + 1]);
            }
        }
        if 0 < i < ls.len() && prefix.is_prefix_of(ls[i]) && (forall|j: int|
            0 <= j < i ==> !prefix.is_prefix_of(#[trigger] ls[j])) {
            assert(tail[i - 1] == ls[i]);
            assert forall|j: int| 0 <= j < i - 1 implies !prefix.is_prefix_of(
                #[trigger] tail[j],
            ) by {
                assert(tail[j] == ls[j + 1]);
            }
            assert(!prefix.is_prefix_of(ls[0]));
        }
    }
}

/// Of a text, the first line that starts with the prefix is found, whatever comes
/// before it and after it.
pub proof fn law_line_is_found_in_a_text(
    ls: Seq<Seq<char>>,
    prefix: Seq<char>,
    value: Seq<char>,
    rest: Seq<char>,
)
    requires
        are_lines(ls),
        forall|i: int| 0 <= i < ls.len() ==> !prefix.is_prefix_of(#[trigger] ls[i]),
        is_line(prefix + value),
    ensures
        line_with(lines(ended(ls) + (prefix + value + seq!['\n'] + rest)), prefix) == Some(
            prefix + value,
        ),
        line_with(lines(ended(ls)), prefix) is None,
{
    let l = prefix + value;
    law_written_lines_are_read(ls, l + seq!['\n'] + rest);
    law_written_lines_are_read(ls, Seq::empty());
    assert(ended(ls) + Seq::<char>::empty() =~= ended(ls));
    assert(ls + lines(Seq::<char>::empty()) =~= ls);
    lemma_first_line(l, rest);
    let all = ls + (seq![l] + lines(rest));
    assert(all[ls.len() as int] == l);
    assert(l.subrange(0, prefix.len() as int) =~= prefix);
    assert forall|j: int| 0 <= j < ls.len() implies !prefix.is_prefix_of(#[trigger] all[j]) by {
        assert(all[j] == ls[j]);
    }
    law_first_line_is_found(all, prefix, ls.len() as int);
    law_first_line_is_found(ls, prefix, 0);
}

/// A part stands in a text if and only if the text is something, the part, and
/// something.
pub proof fn law_parts_stand_anywhere(s: Seq<char>, part: Seq<char>)
    ensures
        has_part(s, part) <==> exists|a: Seq<char>, b: Seq<char>| s == #[trigger] (a + part + b),
{
    if has_part(s, part) {
        let k = choose|k: int| 0 <= k <= s.len() && part.is_prefix_of(#[trigger] s.skip(k));
        let (a, b) = (s.take(k), s.skip(k).skip(part.len() as int));
        assert(part =~= s.skip(k).subrange(0, part.len() as int));
        assert(s =~= a + part + b);
    }
    if exists|a: Seq<char>, b: Seq<char>| s == #[trigger] (a + part + b) {
        let (a, b) = choose|a: Seq<char>, b: Seq<char>| s == #[trigger] (a + part + b);
        let rest = s.skip(a.len() as int);
        assert(rest.subrange(0, part.len() as int) =~= part);
        assert(part.is_prefix_of(rest));
    }
}

/// A digit more makes ten times the number, and the digit.
pub proof fn law_digits_count_in_tens(s: Seq<char>, c: char)
    requires
        '0' <= c <= '9',
    ensures
        decimal(Seq::<char>::empty()) == 0,
        decimal(s.push(c)) == 10 * decimal(s) + (c as u32 - 48),
{
    assert(s.push(c).drop_last() =~= s);
}

/// What is read as a number is one or more digits, or a plus sign and these, and
/// no more than the largest number that is allowed; and all of that is read.
pub proof fn law_numbers_are_digits(s: Seq<char>, max: nat)
    ensures
        s.len() > 0 && (forall|i: int| 0 <= i < s.len() ==> '0' <= #[trigger] s[i] <= '9') ==> {
            &&& parse_unsigned(s, max) == (if decimal(s) <= max {
                Some(decimal(s))
            } else {
                None
            })
            &&& parse_unsigned(seq!['+'] + s, max) == parse_unsigned(s, max)
        },
        parse_unsigned(s, max) is Some ==> {
            &&& s.len() > 0
            &&& forall|i: int| 0 < i < s.len() ==> '0' <= #[trigger] s[i] <= '9'
            &&& '0' <= s[0] <= '9' || (s[0] == '+' && s.len() > 1)
        },
{
    if s.len() > 0 && (forall|i: int| 0 <= i < s.len() ==> '0' <= #[trigger] s[i] <= '9') {
        assert('0' <= s[0] <= '9');
        assert(all_digits(s));
        assert((seq!['+'] + s).drop_first() =~= s);
    }
    if parse_unsigned(s, max) is Some {
        if s[0] == '+' {
            let body = s.drop_first();
            assert forall|i: int| 0 < i < s.len() implies '0' <= #[trigger] s[i] <= '9' by {
                assert(body[i - 1] == s[i]);
                assert(is_digit(body[i - 1]));
            }
        } else {
            assert forall|i: int| 0 <= i < s.len() implies '0' <= #[trigger] s[i] <= '9' by {
                assert(is_digit(s[i]));
            }
        }
    }
}

/// A number is written without leading zeros.
pub proof fn law_no_leading_zeros(n: nat)
    ensures
        digits_of(n)[0] == '0' ==> n == 0 && digits_of(n).len() == 1,
        n < 10 ==> digits_of(n).len() == 1,
    decreases n,
{
    if n >= 10 {
        law_no_leading_zeros(n / 10);
        lemma_digits(n / 10);
        assert(digits_of(n)[0] == digits_of(n / 10)[0]);
    }
}

} // verus!
